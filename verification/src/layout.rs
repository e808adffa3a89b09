//! Physical layouts of monomorphized values, and the table that interns them.
//!
//! A layout describes the shape of a value in memory. Layouts refer to their
//! parts by index into a [`LayoutInterner`], so a layout is a small `Copy`
//! value and a recursive type is a cycle of indices, closed by a
//! [`Layout::RecursivePointer`].
use vstd::prelude::*;

verus! {

/// Width and signedness of a machine integer.
#[derive(Clone, Copy, Debug, PartialEq, Eq, Hash, Structural)]
pub enum IntWidth {
    U8,
    U16,
    U32,
    U64,
    U128,
    I8,
    I16,
    I32,
    I64,
    I128,
}

impl IntWidth {
    /// Number of bytes an integer of this width occupies.
    pub open spec fn spec_stack_size(self) -> u32 {
        match self {
            IntWidth::U8 | IntWidth::I8 => 1,
            IntWidth::U16 | IntWidth::I16 => 2,
            IntWidth::U32 | IntWidth::I32 => 4,
            IntWidth::U64 | IntWidth::I64 => 8,
            IntWidth::U128 | IntWidth::I128 => 16,
        }
    }

    pub fn stack_size(self) -> (bytes: u32)
        ensures
            bytes == self.spec_stack_size(),
    {
        match self {
            IntWidth::U8 | IntWidth::I8 => 1,
            IntWidth::U16 | IntWidth::I16 => 2,
            IntWidth::U32 | IntWidth::I32 => 4,
            IntWidth::U64 | IntWidth::I64 => 8,
            IntWidth::U128 | IntWidth::I128 => 16,
        }
    }
}

/// Width of a binary fraction number.
#[derive(Clone, Copy, Debug, PartialEq, Eq, Hash, Structural)]
pub enum FractionWidth {
    Single,
    Double,
}

/// Width of a pointer on the target machine.
#[derive(Clone, Copy, Debug, PartialEq, Eq, Hash, Structural)]
pub enum PtrWidth {
    Bytes4,
    Bytes8,
}

impl PtrWidth {
    pub open spec fn spec_bytes(self) -> u32 {
        match self {
            PtrWidth::Bytes4 => 4,
            PtrWidth::Bytes8 => 8,
        }
    }

    pub fn bytes(self) -> (bytes: u32)
        ensures
            bytes == self.spec_bytes(),
    {
        match self {
            PtrWidth::Bytes4 => 4,
            PtrWidth::Bytes8 => 8,
        }
    }

    /// The signed integer that is as wide as a pointer.
    pub open spec fn spec_signed_int(self) -> IntWidth {
        match self {
            PtrWidth::Bytes4 => IntWidth::I32,
            PtrWidth::Bytes8 => IntWidth::I64,
        }
    }

    pub fn signed_int(self) -> (width: IntWidth)
        ensures
            width == self.spec_signed_int(),
    {
        match self {
            PtrWidth::Bytes4 => IntWidth::I32,
            PtrWidth::Bytes8 => IntWidth::I64,
        }
    }
}

/// Index of an interned layout.
pub type InLayout = usize;

/// The union without variants.
pub const LAYOUT_VOID: InLayout = 0;

/// The struct without fields.
pub const LAYOUT_UNIT: InLayout = 1;

pub const LAYOUT_BOOL: InLayout = 2;

pub const LAYOUT_U8: InLayout = 3;

pub const LAYOUT_U16: InLayout = 4;

pub const LAYOUT_U32: InLayout = 5;

pub const LAYOUT_U64: InLayout = 6;

pub const LAYOUT_STR: InLayout = 7;

/// Number of layouts that every table starts with.
pub const RESERVED: usize = 8;

/// Most variants a tagged union can have: its discriminant has 16 bits.
pub const MAX_TAGS: usize = 65535;

#[derive(Clone, Copy, Debug, PartialEq, Eq, Hash, Structural)]
pub enum Builtin {
    Int(IntWidth),
    Fraction(FractionWidth),
    Bool,
    Decimal,
    Str,
    List(InLayout),
    SetOf(InLayout),
    Dict(InLayout, InLayout),
}

impl Builtin {
    /// A value of this layout points to a heap allocation that carries a
    /// reference count.
    pub open spec fn spec_is_refcounted(self) -> bool {
        self is Str || self is List || self is SetOf || self is Dict
    }

    pub fn is_refcounted(&self) -> (counted: bool)
        ensures
            counted == self.spec_is_refcounted(),
    {
        match self {
            Builtin::Str | Builtin::List(_) | Builtin::SetOf(_) | Builtin::Dict(_, _) => true,
            _ => false,
        }
    }
}

/// The five physical encodings of a tagged union. A variant is the index of
/// the struct layout that holds its fields.
#[derive(Clone, Copy, Debug, PartialEq, Eq, Hash)]
#[allow(inconsistent_fields)]
pub enum UnionLayout<'a> {
    /// The discriminant is stored beside the payload.
    NonRecursive(&'a [InLayout]),
    /// A pointer to the payload; the discriminant is in the pointer's low
    /// bits or behind the payload.
    Recursive(&'a [InLayout]),
    /// A pointer to the payload of the only variant.
    NonNullableUnwrapped(InLayout),
    /// As `Recursive`, but the variant `nullable_id` has no payload and is
    /// the null pointer.
    NullableWrapped { nullable_id: u16, other_tags: &'a [InLayout] },
    /// Two variants: the null pointer, and a pointer to the payload of the
    /// other one.
    NullableUnwrapped { nullable_id: bool, other_fields: InLayout },
}

#[derive(Clone, Copy, Debug, PartialEq, Eq, Hash)]
pub enum Layout<'a> {
    Builtin(Builtin),
    /// The fields in the order in which they lie in memory.
    Struct(&'a [InLayout]),
    /// A closure, by the layout of what it captures.
    LambdaSet(InLayout),
    Union(UnionLayout<'a>),
    /// A pointer to a heap cell that holds one value.
    Boxed(InLayout),
    /// Stands inside a recursive union for that union itself.
    RecursivePointer(InLayout),
}

/// Whether two lists of indices hold the same indices in the same order.
pub fn same_ids(a: &[InLayout], b: &[InLayout]) -> (same: bool)
    ensures
        same == (a == b),
{
    broadcast use vstd::slice::group_slice_axioms;

    if a.len() != b.len() {
        assert(!(a =~= b));
        return false;
    }
    let mut j: usize = 0;
    while j < a.len()
        invariant
            a@.len() == b@.len(),
            j <= a@.len(),
            forall|k: int| 0 <= k < j ==> a@[k] == b@[k],
        decreases a@.len() - j,
    {
        if a[j] != b[j] {
            assert(!(a =~= b));
            return false;
        }
        j += 1;
    }
    assert(a =~= b);
    true
}

impl<'a> UnionLayout<'a> {
    /// Whether two unions have the same encoding and the same variants.
    pub fn same(&self, other: &UnionLayout<'a>) -> (same: bool)
        ensures
            same == (*self == *other),
    {
        match (*self, *other) {
            (UnionLayout::NonRecursive(a), UnionLayout::NonRecursive(b)) => same_ids(a, b),
            (UnionLayout::Recursive(a), UnionLayout::Recursive(b)) => same_ids(a, b),
            (UnionLayout::NonNullableUnwrapped(a), UnionLayout::NonNullableUnwrapped(b)) => a == b,
            (
                UnionLayout::NullableWrapped { nullable_id: id_a, other_tags: a },
                UnionLayout::NullableWrapped { nullable_id: id_b, other_tags: b },
            ) => id_a == id_b && same_ids(a, b),
            (
                UnionLayout::NullableUnwrapped { nullable_id: id_a, other_fields: a },
                UnionLayout::NullableUnwrapped { nullable_id: id_b, other_fields: b },
            ) => id_a == id_b && a == b,
            _ => false,
        }
    }
}

impl<'a> Layout<'a> {
    /// Whether two layouts have the same shape and the same parts.
    pub fn same(&self, other: &Layout<'a>) -> (same: bool)
        ensures
            same == (*self == *other),
    {
        match (*self, *other) {
            (Layout::Builtin(a), Layout::Builtin(b)) => a == b,
            (Layout::Struct(a), Layout::Struct(b)) => same_ids(a, b),
            (Layout::LambdaSet(a), Layout::LambdaSet(b)) => a == b,
            (Layout::Union(a), Layout::Union(b)) => a.same(&b),
            (Layout::Boxed(a), Layout::Boxed(b)) => a == b,
            (Layout::RecursivePointer(a), Layout::RecursivePointer(b)) => a == b,
            _ => false,
        }
    }
}

/// Every index of `ids` lies under `bound`.
pub open spec fn all_below(ids: Seq<InLayout>, bound: int) -> bool {
    forall|j: int| 0 <= j < ids.len() ==> (#[trigger] ids[j]) < bound
}

impl<'a> UnionLayout<'a> {
    /// Number of variants, the null one included.
    pub open spec fn spec_number_of_tags(self) -> int {
        match self {
            UnionLayout::NonRecursive(tags) => tags@.len() as int,
            UnionLayout::Recursive(tags) => tags@.len() as int,
            UnionLayout::NonNullableUnwrapped(_) => 1,
            UnionLayout::NullableWrapped { other_tags, .. } => (other_tags@.len() + 1) as int,
            UnionLayout::NullableUnwrapped { .. } => 2,
        }
    }

    /// The value is a pointer to its payload.
    pub open spec fn spec_is_recursive(self) -> bool {
        !(self is NonRecursive)
    }

    pub fn is_recursive(&self) -> (recursive: bool)
        ensures
            recursive == self.spec_is_recursive(),
    {
        match self {
            UnionLayout::NonRecursive(_) => false,
            _ => true,
        }
    }

    /// One of the variants is the null pointer.
    pub open spec fn spec_is_nullable(self) -> bool {
        self is NullableWrapped || self is NullableUnwrapped
    }

    pub fn is_nullable(&self) -> (nullable: bool)
        ensures
            nullable == self.spec_is_nullable(),
    {
        match self {
            UnionLayout::NullableWrapped { .. } | UnionLayout::NullableUnwrapped { .. } => true,
            _ => false,
        }
    }

    /// The discriminant is packed into the low bits of the payload pointer:
    /// there are fewer variants than a pointer has bytes.
    pub open spec fn spec_stores_tag_id_in_pointer(self, ptr_width: PtrWidth) -> bool {
        match self {
            UnionLayout::Recursive(tags) => tags@.len() < ptr_width.spec_bytes(),
            UnionLayout::NullableWrapped { other_tags, .. } => other_tags@.len() + 1
                < ptr_width.spec_bytes(),
            _ => false,
        }
    }

    pub fn stores_tag_id_in_pointer(&self, ptr_width: PtrWidth) -> (packed: bool)
        ensures
            packed == self.spec_stores_tag_id_in_pointer(ptr_width),
    {
        let limit: usize = if ptr_width.bytes() == 4 {
            4
        } else {
            8
        };
        match self {
            UnionLayout::Recursive(tags) => tags.len() < limit,
            UnionLayout::NullableWrapped { other_tags, .. } => other_tags.len() < limit - 1,
            _ => false,
        }
    }

    /// The integer layout that holds the discriminant of a union with
    /// `tags` variants.
    pub open spec fn tag_id_layout_for(tags: int) -> InLayout {
        if tags <= 255 {
            LAYOUT_U8
        } else {
            LAYOUT_U16
        }
    }

    /// Bytes of the discriminant of a union with `tags` variants.
    pub open spec fn tag_id_width_for(tags: int) -> u32 {
        if tags <= 255 {
            1
        } else {
            2
        }
    }

    pub open spec fn spec_tag_id_layout(self) -> InLayout {
        Self::tag_id_layout_for(self.spec_number_of_tags())
    }

    pub open spec fn spec_tag_id_width(self) -> u32 {
        Self::tag_id_width_for(self.spec_number_of_tags())
    }

    /// The layout of the discriminant.
    pub fn tag_id_layout(&self) -> (id: InLayout)
        requires
            self.spec_number_of_tags() <= MAX_TAGS,
        ensures
            id == self.spec_tag_id_layout(),
    {
        let small = match self {
            UnionLayout::NonRecursive(tags) => tags.len() <= 255,
            UnionLayout::Recursive(tags) => tags.len() <= 255,
            UnionLayout::NonNullableUnwrapped(_) => true,
            UnionLayout::NullableWrapped { other_tags, .. } => other_tags.len() <= 254,
            UnionLayout::NullableUnwrapped { .. } => true,
        };
        if small {
            LAYOUT_U8
        } else {
            LAYOUT_U16
        }
    }

    /// Bytes of the discriminant.
    pub fn tag_id_width(&self) -> (bytes: u32)
        requires
            self.spec_number_of_tags() <= MAX_TAGS,
        ensures
            bytes == self.spec_tag_id_width(),
    {
        let small = match self {
            UnionLayout::NonRecursive(tags) => tags.len() <= 255,
            UnionLayout::Recursive(tags) => tags.len() <= 255,
            UnionLayout::NonNullableUnwrapped(_) => true,
            UnionLayout::NullableWrapped { other_tags, .. } => other_tags.len() <= 254,
            UnionLayout::NullableUnwrapped { .. } => true,
        };
        if small {
            1
        } else {
            2
        }
    }
}

/// One row of the table: a layout and the sizes that were declared for it.
#[derive(Clone, Copy, Debug, PartialEq, Eq, Hash)]
pub struct LayoutEntry<'a> {
    pub layout: Layout<'a>,
    /// Bytes that a value takes where it stands: in a field, in a list
    /// element, on the stack.
    pub stack_size: u32,
    /// For a union that is a pointer, the bytes of the block that the
    /// pointer leads to. Not read for other layouts.
    pub data_size: u32,
}

/// Every index of `ids` names a struct in `entries`.
pub open spec fn all_structs(entries: Seq<LayoutEntry<'_>>, ids: Seq<InLayout>) -> bool {
    forall|j: int|
        0 <= j < ids.len() ==> entries[(#[trigger] ids[j]) as int].layout is Struct
}

/// A layout may stand at index `bound` of a table that begins with
/// `entries`: its parts stand before it, the variants of a union are
/// structs, and a union has no more variants than a discriminant can tell
/// apart. The target of a recursive pointer comes later and is not looked at.
pub open spec fn admissible(entries: Seq<LayoutEntry<'_>>, bound: int, layout: Layout<'_>) -> bool {
    match layout {
        Layout::Builtin(Builtin::List(elem)) => elem< bound,
        Layout::Builtin(Builtin::SetOf(elem)) => elem< bound,
        Layout::Builtin(Builtin::Dict(key, value)) => key< bound && value< bound,
        Layout::Builtin(_) => true,
        Layout::Struct(fields) => all_below(fields@, bound),
        Layout::LambdaSet(captures) => captures< bound,
        Layout::Boxed(inner) => inner< bound,
        Layout::RecursivePointer(_) => true,
        Layout::Union(UnionLayout::NonRecursive(tags)) => {
            &&& tags@.len() <= MAX_TAGS
            &&& all_below(tags@, bound)
            &&& all_structs(entries, tags@)
        },
        Layout::Union(UnionLayout::Recursive(tags)) => {
            &&& tags@.len() <= MAX_TAGS
            &&& all_below(tags@, bound)
            &&& all_structs(entries, tags@)
        },
        Layout::Union(UnionLayout::NonNullableUnwrapped(fields)) => {
            &&& fields< bound
            &&& entries[fields as int].layout is Struct
        },
        Layout::Union(UnionLayout::NullableWrapped { nullable_id, other_tags }) => {
            &&& other_tags@.len() < MAX_TAGS
            &&& nullable_id <= other_tags@.len()
            &&& all_below(other_tags@, bound)
            &&& all_structs(entries, other_tags@)
        },
        Layout::Union(UnionLayout::NullableUnwrapped { other_fields, .. }) => {
            &&& other_fields< bound
            &&& entries[other_fields as int].layout is Struct
        },
    }
}

/// The layouts that every table starts with, for a target whose pointers
/// have `ptr` bytes.
pub open spec fn reserved_ok(entries: Seq<LayoutEntry<'_>>, ptr: PtrWidth) -> bool {
    &&& entries.len() >= RESERVED
    &&& entries[0].layout matches Layout::Union(UnionLayout::NonRecursive(tags)) && tags@.len() == 0
    &&& entries[0].stack_size == 0
    &&& entries[1].layout matches Layout::Struct(fields) && fields@.len() == 0
    &&& entries[1].stack_size == 0
    &&& entries[2].layout == Layout::Builtin(Builtin::Bool)
    &&& entries[2].stack_size == 1
    &&& entries[3].layout == Layout::Builtin(Builtin::Int(IntWidth::U8))
    &&& entries[3].stack_size == 1
    &&& entries[4].layout == Layout::Builtin(Builtin::Int(IntWidth::U16))
    &&& entries[4].stack_size == 2
    &&& entries[5].layout == Layout::Builtin(Builtin::Int(IntWidth::U32))
    &&& entries[5].stack_size == 4
    &&& entries[6].layout == Layout::Builtin(Builtin::Int(IntWidth::U64))
    &&& entries[6].stack_size == 8
    &&& entries[7].layout == Layout::Builtin(Builtin::Str)
    &&& entries[7].stack_size == 3 * ptr.spec_bytes()
}

/// The table of interned layouts of one compilation.
pub struct LayoutInterner<'a> {
    entries: Vec<LayoutEntry<'a>>,
    ptr_width: PtrWidth,
}

impl<'a> View for LayoutInterner<'a> {
    type V = Seq<LayoutEntry<'a>>;

    closed spec fn view(&self) -> Seq<LayoutEntry<'a>> {
        self.entries@
    }
}

impl<'a> LayoutInterner<'a> {
    pub closed spec fn spec_ptr_width(&self) -> PtrWidth {
        self.ptr_width
    }

    /// Bytes of a pointer, as a mathematical integer.
    pub open spec fn ptr_bytes(&self) -> int {
        self.spec_ptr_width().spec_bytes() as int
    }

    /// The table's invariant: the reserved layouts are in place and every
    /// row was admissible when it was added.
    pub open spec fn wf(&self) -> bool {
        &&& reserved_ok(self@, self.spec_ptr_width())
        &&& forall|i: int| 0 <= i < self@.len() ==> admissible(self@, i, (#[trigger] self@[i]).layout)
    }

    pub open spec fn contains(&self, id: InLayout) -> bool {
        id< self@.len()
    }

    pub open spec fn spec_get(&self, id: InLayout) -> Layout<'a> {
        self@[id as int].layout
    }

    pub open spec fn spec_stack_size(&self, id: InLayout) -> u32 {
        self@[id as int].stack_size
    }

    pub open spec fn spec_data_size(&self, id: InLayout) -> u32 {
        self@[id as int].data_size
    }

    /// A table with the reserved layouts and nothing else.
    pub fn new(ptr_width: PtrWidth) -> (table: Self)
        ensures
            table.wf(),
            table@.len() == RESERVED,
            table.spec_ptr_width() == ptr_width,
    {
        let no_tags: &'a [InLayout] = vstd::array::array_as_slice(&[]);
        let no_fields: &'a [InLayout] = vstd::array::array_as_slice(&[]);
        let mut entries: Vec<LayoutEntry<'a>> = Vec::new();
        entries.push(
            LayoutEntry {
                layout: Layout::Union(UnionLayout::NonRecursive(no_tags)),
                stack_size: 0,
                data_size: 0,
            },
        );
        entries.push(LayoutEntry { layout: Layout::Struct(no_fields), stack_size: 0, data_size: 0 });
        entries.push(
            LayoutEntry { layout: Layout::Builtin(Builtin::Bool), stack_size: 1, data_size: 0 },
        );
        entries.push(
            LayoutEntry {
                layout: Layout::Builtin(Builtin::Int(IntWidth::U8)),
                stack_size: 1,
                data_size: 0,
            },
        );
        entries.push(
            LayoutEntry {
                layout: Layout::Builtin(Builtin::Int(IntWidth::U16)),
                stack_size: 2,
                data_size: 0,
            },
        );
        entries.push(
            LayoutEntry {
                layout: Layout::Builtin(Builtin::Int(IntWidth::U32)),
                stack_size: 4,
                data_size: 0,
            },
        );
        entries.push(
            LayoutEntry {
                layout: Layout::Builtin(Builtin::Int(IntWidth::U64)),
                stack_size: 8,
                data_size: 0,
            },
        );
        entries.push(
            LayoutEntry {
                layout: Layout::Builtin(Builtin::Str),
                stack_size: 3 * ptr_width.bytes(),
                data_size: 0,
            },
        );
        LayoutInterner { entries, ptr_width }
    }

    pub fn ptr_width(&self) -> (width: PtrWidth)
        ensures
            width == self.spec_ptr_width(),
    {
        self.ptr_width
    }

    pub fn len(&self) -> (n: usize)
        ensures
            n == self@.len(),
    {
        self.entries.len()
    }

    pub fn get(&self, id: InLayout) -> (layout: Layout<'a>)
        requires
            self.contains(id),
        ensures
            layout == self.spec_get(id),
    {
        self.entries[id].layout
    }

    /// The declared size of a value of the layout where it stands.
    pub fn stack_size(&self, id: InLayout) -> (bytes: u32)
        requires
            self.contains(id),
        ensures
            bytes == self.spec_stack_size(id),
    {
        self.entries[id].stack_size
    }

    /// The declared size of the block that a pointer union leads to.
    pub fn data_size(&self, id: InLayout) -> (bytes: u32)
        requires
            self.contains(id),
        ensures
            bytes == self.spec_data_size(id),
    {
        self.entries[id].data_size
    }

    fn ids_below(&self, ids: &[InLayout]) -> (ok: bool)
        ensures
            ok == all_below(ids@, self@.len() as int),
    {
        let mut j: usize = 0;
        while j < ids.len()
            invariant
                j <= ids@.len(),
                forall|k: int| 0 <= k < j ==> (#[trigger] ids@[k]) < self@.len(),
            decreases ids@.len() - j,
        {
            if ids[j]>= self.entries.len() {
                return false;
            }
            j += 1;
        }
        true
    }

    fn ids_are_structs(&self, ids: &[InLayout]) -> (ok: bool)
        requires
            all_below(ids@, self@.len() as int),
        ensures
            ok == all_structs(self@, ids@),
    {
        let mut j: usize = 0;
        while j < ids.len()
            invariant
                j <= ids@.len(),
                all_below(ids@, self@.len() as int),
                forall|k: int| 0 <= k < j ==> self@[(#[trigger] ids@[k]) as int].layout is Struct,
            decreases ids@.len() - j,
        {
            if !self.is_struct(ids[j]) {
                return false;
            }
            j += 1;
        }
        true
    }

    fn is_struct(&self, id: InLayout) -> (ok: bool)
        requires
            self.contains(id),
        ensures
            ok == (self.spec_get(id) is Struct),
    {
        match self.entries[id].layout {
            Layout::Struct(_) => true,
            _ => false,
        }
    }

    /// Whether `layout` may be added to the table as it is now.
    pub fn admits(&self, layout: &Layout<'a>) -> (ok: bool)
        ensures
            ok == admissible(self@, self@.len() as int, *layout),
    {
        let n = self.entries.len();
        match *layout {
            Layout::Builtin(Builtin::List(elem)) => elem < n,
            Layout::Builtin(Builtin::SetOf(elem)) => elem < n,
            Layout::Builtin(Builtin::Dict(key, value)) => key < n && value < n,
            Layout::Builtin(_) => true,
            Layout::Struct(fields) => self.ids_below(fields),
            Layout::LambdaSet(captures) => captures < n,
            Layout::Boxed(inner) => inner < n,
            Layout::RecursivePointer(_) => true,
            Layout::Union(UnionLayout::NonRecursive(tags)) => {
                tags.len() <= MAX_TAGS && self.ids_below(tags) && self.ids_are_structs(tags)
            },
            Layout::Union(UnionLayout::Recursive(tags)) => {
                tags.len() <= MAX_TAGS && self.ids_below(tags) && self.ids_are_structs(tags)
            },
            Layout::Union(UnionLayout::NonNullableUnwrapped(fields)) => {
                fields < n && self.is_struct(fields)
            },
            Layout::Union(UnionLayout::NullableWrapped { nullable_id, other_tags }) => {
                other_tags.len() < MAX_TAGS && (nullable_id as usize) <= other_tags.len()
                    && self.ids_below(other_tags) && self.ids_are_structs(other_tags)
            },
            Layout::Union(UnionLayout::NullableUnwrapped { other_fields, .. }) => {
                other_fields < n && self.is_struct(other_fields)
            },
        }
    }

    /// Adds a layout with its declared sizes and returns its index, the
    /// number of layouts that the table held before. A layout that is not
    /// admissible is not added.
    pub fn insert(&mut self, layout: Layout<'a>, stack_size: u32, data_size: u32) -> (id: Option<
        InLayout,
    >)
        requires
            old(self).wf(),
        ensures
            final(self).wf(),
            final(self).spec_ptr_width() == old(self).spec_ptr_width(),
            id is Some <==> admissible(old(self)@, old(self)@.len() as int, layout),
            id is Some ==> id == Some(old(self)@.len() as usize) && final(self)@ == old(
                self,
            )@.push(LayoutEntry { layout, stack_size, data_size }),
            id is None ==> final(self)@ == old(self)@,
    {
        if !self.admits(&layout) {
            return None;
        }
        let id: InLayout = self.entries.len();
        let ghost before = self@;
        self.entries.push(LayoutEntry { layout, stack_size, data_size });
        proof {
            let after = self@;
            assert forall|i: int| 0 <= i < after.len() implies admissible(
                after,
                i,
                (#[trigger] after[i]).layout,
            ) by {
                lemma_admissible_extends(before, after, i, after[i].layout);
            }
        }
        Some(id)
    }
}

/// A value of the layout holds no pointer, so its bytes can be copied as
/// they are: scalars, and structs, closures and non-recursive unions made of
/// such.
pub open spec fn safe_to_memcpy(entries: Seq<LayoutEntry<'_>>, id: InLayout) -> bool
    decreases id,
{
    if id >= entries.len() {
        false
    } else {
        match entries[id as int].layout {
            Layout::Builtin(Builtin::Int(_)) => true,
            Layout::Builtin(Builtin::Fraction(_)) => true,
            Layout::Builtin(Builtin::Bool) => true,
            Layout::Builtin(Builtin::Decimal) => true,
            Layout::Builtin(_) => false,
            Layout::Struct(fields) => all_safe_to_memcpy(entries, fields@, id),
            Layout::LambdaSet(captures) => captures < id && safe_to_memcpy(entries, captures),
            Layout::Union(UnionLayout::NonRecursive(tags)) => all_safe_to_memcpy(
                entries,
                tags@,
                id,
            ),
            Layout::Union(_) => false,
            Layout::Boxed(_) => false,
            Layout::RecursivePointer(_) => false,
        }
    }
}

/// Every layout of `ids` stands before `bound` and is safe to copy.
pub open spec fn all_safe_to_memcpy(
    entries: Seq<LayoutEntry<'_>>,
    ids: Seq<InLayout>,
    bound: InLayout,
) -> bool
    decreases bound, ids.len(),
{
    if ids.len() == 0 {
        true
    } else {
        &&& ids[0] < bound
        &&& safe_to_memcpy(entries, ids[0])
        &&& all_safe_to_memcpy(entries, ids.subrange(1, ids.len() as int), bound)
    }
}

/// `all_safe_to_memcpy`, item by item.
pub proof fn lemma_all_safe_to_memcpy(
    entries: Seq<LayoutEntry<'_>>,
    ids: Seq<InLayout>,
    bound: InLayout,
)
    ensures
        all_safe_to_memcpy(entries, ids, bound) <==> forall|j: int|
            0 <= j < ids.len() ==> (#[trigger] ids[j]) < bound && safe_to_memcpy(entries, ids[j]),
    decreases ids.len(),
{
    if ids.len() > 0 {
        let rest = ids.subrange(1, ids.len() as int);
        lemma_all_safe_to_memcpy(entries, rest, bound);
        if all_safe_to_memcpy(entries, ids, bound) {
            assert forall|j: int| 0 <= j < ids.len() implies (#[trigger] ids[j]) < bound
                && safe_to_memcpy(entries, ids[j]) by {
                if j > 0 {
                    assert(ids[j] == rest[j - 1]);
                }
            }
        }
        if forall|j: int|
            0 <= j < ids.len() ==> (#[trigger] ids[j]) < bound && safe_to_memcpy(entries, ids[j]) {
            assert forall|j: int| 0 <= j < rest.len() implies (#[trigger] rest[j]) < bound
                && safe_to_memcpy(entries, rest[j]) by {
                assert(rest[j] == ids[j + 1]);
            }
        }
    }
}

/// Every recursive pointer of the table leads to a union that is a pointer.
pub open spec fn closed(entries: Seq<LayoutEntry<'_>>) -> bool {
    forall|i: int|
        0 <= i < entries.len() ==> ((#[trigger] entries[i]).layout matches Layout::RecursivePointer(
            target,
        ) ==> target < entries.len() && (entries[target as int].layout matches Layout::Union(union)
            && union.spec_is_recursive()))
}

impl<'a> LayoutInterner<'a> {
    /// Every recursive pointer leads to a union that is a pointer.
    pub open spec fn spec_is_closed(&self) -> bool {
        closed(self@)
    }

    pub open spec fn spec_safe_to_memcpy(&self, id: InLayout) -> bool {
        safe_to_memcpy(self@, id)
    }

    /// Whether a value of the layout can be copied byte by byte.
    pub fn safe_to_memcpy(&self, id: InLayout) -> (safe: bool)
        requires
            self.wf(),
            self.contains(id),
        ensures
            safe == self.spec_safe_to_memcpy(id),
        decreases id,
    {
        match self.entries[id].layout {
            Layout::Builtin(Builtin::Int(_)) => true,
            Layout::Builtin(Builtin::Fraction(_)) => true,
            Layout::Builtin(Builtin::Bool) => true,
            Layout::Builtin(Builtin::Decimal) => true,
            Layout::Builtin(_) => false,
            Layout::Struct(fields) => self.all_safe_to_memcpy(fields, id),
            Layout::LambdaSet(captures) => self.safe_to_memcpy(captures),
            Layout::Union(UnionLayout::NonRecursive(tags)) => self.all_safe_to_memcpy(tags, id),
            Layout::Union(_) => false,
            Layout::Boxed(_) => false,
            Layout::RecursivePointer(_) => false,
        }
    }

    /// Whether values of all the layouts `ids`, parts of the layout
    /// `bound`, can be copied byte by byte.
    pub fn all_safe_to_memcpy(&self, ids: &[InLayout], bound: InLayout) -> (safe: bool)
        requires
            self.wf(),
            bound <= self@.len(),
            all_below(ids@, bound as int),
        ensures
            safe == all_safe_to_memcpy(self@, ids@, bound),
        decreases bound, 0nat,
    {
        let mut j: usize = 0;
        while j < ids.len()
            invariant
                self.wf(),
                bound <= self@.len(),
                all_below(ids@, bound as int),
                j <= ids@.len(),
                forall|k: int| 0 <= k < j ==> safe_to_memcpy(self@, #[trigger] ids@[k]),
            decreases ids@.len() - j,
        {
            if !self.safe_to_memcpy(ids[j]) {
                proof {
                    lemma_all_safe_to_memcpy(self@, ids@, bound);
                }
                return false;
            }
            j += 1;
        }
        proof {
            lemma_all_safe_to_memcpy(self@, ids@, bound);
        }
        true
    }

    /// Whether every recursive pointer leads to a union that is a pointer.
    pub fn is_closed(&self) -> (ok: bool)
        ensures
            ok == self.spec_is_closed(),
    {
        let mut i: usize = 0;
        while i < self.entries.len()
            invariant
                i <= self@.len(),
                forall|k: int|
                    0 <= k < i ==> ((#[trigger] self@[k]).layout matches Layout::RecursivePointer(
                        target,
                    ) ==> target < self@.len() && (self@[target as int].layout matches Layout::Union(
                        union,
                    ) && union.spec_is_recursive())),
            decreases self@.len() - i,
        {
            if let Layout::RecursivePointer(target) = self.entries[i].layout {
                if target >= self.entries.len() {
                    return false;
                }
                match self.entries[target].layout {
                    Layout::Union(union) => {
                        if !union.is_recursive() {
                            return false;
                        }
                    },
                    _ => {
                        return false;
                    },
                }
            }
            i += 1;
        }
        true
    }
}

/// Whether a layout is admissible at `bound` depends only on the rows
/// before `bound`.
pub proof fn lemma_admissible_extends(
    before: Seq<LayoutEntry<'_>>,
    after: Seq<LayoutEntry<'_>>,
    bound: int,
    layout: Layout<'_>,
)
    requires
        0 <= bound <= before.len() <= after.len(),
        forall|i: int| 0 <= i < before.len() ==> before[i] == after[i],
        admissible(before, bound, layout),
    ensures
        admissible(after, bound, layout),
{
}

} // verus!
