//! Helper procedures that change the reference count of a value, and the
//! call sites that use them.
//!
//! The backend works in two steps. Where it meets a request to change a
//! reference count, it asks [`CodeGenHelp::expand_refcount_stmt`] for the
//! statements that stand for it: a call to a helper that is specialized to
//! the layout of the value. The helper is only registered then. When all
//! the code of the caller is through, [`CodeGenHelp::generate_procs`] writes
//! one procedure for each registered helper.
use crate::arena::{arena_alloc, pending_items, proc_items, Pending, PendingProcs, ProcList};
use crate::ir::{Call, CallType, Expr, Literal, LowLevel, ModifyRc, Proc, ProcLayout, Stmt};
use crate::layout::{
    Builtin, IntWidth, Layout, LAYOUT_VOID,
};
use crate::symbol::{IdentIds, ModuleId, Symbol};
use vstd::array::{array_as_slice, spec_array_as_slice};
use vstd::prelude::*;

verus! {

/// What a helper does to a reference count.
#[derive(Clone, Copy, Debug, PartialEq, Eq, Hash, Structural)]
pub enum RefcountOp {
    Inc,
    Dec,
    DecRef,
}

/// "Infinite" reference count, for static values.
pub const REFCOUNT_MAX: usize = 0;

/// Number of names that a helper for strings takes for its local values.
pub const STR_HELPER_LOCALS: usize = 8;

/// The slice of no item.
pub open spec fn slice0<'a, T>() -> &'a [T] {
    spec_array_as_slice::<T, 0>(&[])
}

/// The slice of one item.
pub open spec fn slice1<'a, T>(first: T) -> &'a [T] {
    spec_array_as_slice(&[first])
}

/// The slice of two items.
pub open spec fn slice2<'a, T>(first: T, second: T) -> &'a [T] {
    spec_array_as_slice(&[first, second])
}

fn alloc_slice0<'a, T>(arena: &'a bumpalo::Bump) -> (slice: &'a [T])
    ensures
        slice == slice0::<T>(),
{
    let items: [T; 0] = [];
    array_as_slice(arena_alloc(arena, items))
}

fn alloc_slice1<'a, T>(arena: &'a bumpalo::Bump, first: T) -> (slice: &'a [T])
    ensures
        slice == slice1(first),
{
    array_as_slice(arena_alloc(arena, [first]))
}

fn alloc_slice2<'a, T>(arena: &'a bumpalo::Bump, first: T, second: T) -> (slice: &'a [T])
    ensures
        slice == slice2(first, second),
{
    array_as_slice(arena_alloc(arena, [first, second]))
}

pub open spec fn spec_layout_bool<'a>() -> Layout<'a> {
    Layout::Builtin(Builtin::Bool)
}

pub open spec fn spec_layout_unit<'a>() -> Layout<'a> {
    Layout::Struct(slice0())
}

/// The layout of a pointer of which no more is known.
pub open spec fn spec_layout_ptr<'a>() -> Layout<'a> {
    Layout::RecursivePointer(LAYOUT_VOID)
}

pub open spec fn spec_layout_u32<'a>() -> Layout<'a> {
    Layout::Builtin(Builtin::Int(IntWidth::U32))
}

pub open spec fn spec_layout_str<'a>() -> Layout<'a> {
    Layout::Builtin(Builtin::Str)
}

/// The layouts for which helpers can be generated: strings.
pub open spec fn spec_layout_is_supported(layout: Layout<'_>) -> bool {
    layout == Layout::Builtin(Builtin::Str)
}

/// The name of a layout's shape, as helper names hold it.
pub open spec fn spec_layout_debug_name(layout: Layout<'_>) -> Seq<char> {
    match layout {
        Layout::Builtin(Builtin::List(_)) => "list"@,
        Layout::Builtin(Builtin::SetOf(_)) => "set"@,
        Layout::Builtin(Builtin::Dict(_, _)) => "dict"@,
        Layout::Builtin(_) => "str"@,
        Layout::Struct(_) => "struct"@,
        Layout::Union(_) => "union"@,
        Layout::LambdaSet(_) => "lambdaset"@,
        Layout::Boxed(_) => "boxed"@,
        Layout::RecursivePointer(_) => "recursive_pointer"@,
    }
}

/// A layout whose values carry a reference count or hold parts that do:
/// every layout but the scalars.
pub open spec fn has_debug_name(layout: Layout<'_>) -> bool {
    layout matches Layout::Builtin(builtin) ==> builtin.spec_is_refcounted()
}

/// Helper to derive a debug function name from a layout.
pub fn layout_debug_name<'a>(layout: &Layout<'a>) -> (name: &'static str)
    requires
        has_debug_name(*layout),
    ensures
        name@ == spec_layout_debug_name(*layout),
{
    match layout {
        Layout::Builtin(Builtin::List(_)) => "list",
        Layout::Builtin(Builtin::SetOf(_)) => "set",
        Layout::Builtin(Builtin::Dict(_, _)) => "dict",
        Layout::Builtin(_) => "str",
        Layout::Struct(_) => "struct",
        Layout::Union(_) => "union",
        Layout::LambdaSet(_) => "lambdaset",
        Layout::Boxed(_) => "boxed",
        Layout::RecursivePointer(_) => "recursive_pointer",
    }
}

/// The name of an operation, as helper names hold it.
pub open spec fn op_name(op: RefcountOp) -> Seq<char> {
    match op {
        RefcountOp::Inc => "Inc"@,
        RefcountOp::Dec => "Dec"@,
        RefcountOp::DecRef => "DecRef"@,
    }
}

pub open spec fn digit(d: nat) -> char {
    if d == 0 {
        '0'
    } else if d == 1 {
        '1'
    } else if d == 2 {
        '2'
    } else if d == 3 {
        '3'
    } else if d == 4 {
        '4'
    } else if d == 5 {
        '5'
    } else if d == 6 {
        '6'
    } else if d == 7 {
        '7'
    } else if d == 8 {
        '8'
    } else {
        '9'
    }
}

/// A number in decimal digits, without leading zeros.
pub open spec fn decimal(n: nat) -> Seq<char>
    decreases n,
{
    if n < 10 {
        seq![digit(n)]
    } else {
        decimal(n / 10).push(digit(n % 10))
    }
}

/// The debug name of the helper that was registered as number `index`:
/// `#rc`, the operation, the layout's shape and the number, as in
/// `#rcDec_str_3`.
pub open spec fn helper_name(op: RefcountOp, layout_name: Seq<char>, index: nat) -> Seq<char> {
    joined_name(op_name(op), layout_name, index)
}

/// The text of an operation in the names of helpers.
pub fn op_text(op: RefcountOp) -> (name: &'static str)
    ensures
        name@ == op_name(op),
{
    match op {
        RefcountOp::Inc => "Inc",
        RefcountOp::Dec => "Dec",
        RefcountOp::DecRef => "DecRef",
    }
}

/// The text of a helper's name from its three parts.
pub open spec fn joined_name(op_name: Seq<char>, layout_name: Seq<char>, index: nat) -> Seq<char> {
    "#rc"@ + op_name + "_"@ + layout_name + "_"@ + decimal(index)
}

/// `format!` of the standard library, which writes a string as it is and
/// a number by its `Display`, in decimal digits.
#[verifier::external_body]
fn format_helper_name(op_name: &str, layout_name: &str, index: usize) -> (name: String)
    ensures
        name@ == joined_name(op_name@, layout_name@, index as nat),
{
    format!("#rc{}_{}_{}", op_name, layout_name, index)
}

/// The helper that stands in `entries` for a layout and an operation: the
/// first one, if there is any.
pub open spec fn lookup(entries: Seq<Pending<'_>>, layout: Layout<'_>, op: RefcountOp) -> Option<
    Symbol,
>
    decreases entries.len(),
{
    if entries.len() == 0 {
        None
    } else if entries[0].0 == layout && entries[0].1 == op {
        Some(entries[0].2)
    } else {
        lookup(entries.subrange(1, entries.len() as int), layout, op)
    }
}

/// `lookup` finds the first entry for the layout and the operation.
pub proof fn lemma_lookup_at(
    entries: Seq<Pending<'_>>,
    layout: Layout<'_>,
    op: RefcountOp,
    at: int,
)
    requires
        0 <= at <= entries.len(),
        forall|k: int| 0 <= k < at ==> !((#[trigger] entries[k]).0 == layout && entries[k].1 == op),
    ensures
        at < entries.len() && entries[at].0 == layout && entries[at].1 == op ==> lookup(
            entries,
            layout,
            op,
        ) == Some(entries[at].2),
        at == entries.len() ==> lookup(entries, layout, op) is None,
    decreases entries.len(),
{
    if entries.len() > 0 && at > 0 {
        let rest = entries.subrange(1, entries.len() as int);
        assert(!(entries[0].0 == layout && entries[0].1 == op));
        assert forall|k: int| 0 <= k < at - 1 implies !((#[trigger] rest[k]).0 == layout
            && rest[k].1 == op) by {
            assert(rest[k] == entries[k + 1]);
        }
        lemma_lookup_at(rest, layout, op, at - 1);
        if at < entries.len() {
            assert(rest[at - 1] == entries[at]);
        }
    }
}

/// Every entry is for a layout for which helpers can be generated.
pub open spec fn all_supported(entries: Seq<Pending<'_>>) -> bool {
    forall|k: int| 0 <= k < entries.len() ==> spec_layout_is_supported((#[trigger] entries[k]).0)
}

/// No two entries are for the same layout and operation.
pub open spec fn distinct_keys(entries: Seq<Pending<'_>>) -> bool {
    forall|j: int, k: int|
        0 <= j < k < entries.len() ==> !((#[trigger] entries[j]).0 == (#[trigger] entries[k]).0
            && entries[j].1 == entries[k].1)
}

/// The statements at a call site that add `amount` to the reference count
/// of `structure`: a constant for the amount, then the call of the helper
/// `proc_name` with the structure and the amount.
pub open spec fn inc_call_site<'a>(
    layout: Layout<'a>,
    layout_isize: Layout<'a>,
    structure: Symbol,
    amount: u64,
    proc_name: Symbol,
    amount_sym: Symbol,
    call_result: Symbol,
    following: &'a Stmt<'a>,
) -> Stmt<'a> {
    Stmt::Let(
        amount_sym,
        Expr::Literal(Literal::Int(amount as i128)),
        layout_isize,
        &Stmt::Let(
            call_result,
            Expr::Call(
                Call {
                    call_type: CallType::ByName {
                        name: proc_name,
                        ret_layout: spec_layout_unit(),
                        arg_layouts: slice2(layout, layout_isize),
                    },
                    arguments: slice2(structure, amount_sym),
                },
            ),
            spec_layout_unit(),
            following,
        ),
    )
}

/// The statement at a call site that takes one from the reference count of
/// `structure`: the call of the helper `proc_name` with the structure.
pub open spec fn dec_call_site<'a>(
    layout: Layout<'a>,
    structure: Symbol,
    proc_name: Symbol,
    call_result: Symbol,
    following: &'a Stmt<'a>,
) -> Stmt<'a> {
    Stmt::Let(
        call_result,
        Expr::Call(
            Call {
                call_type: CallType::ByName {
                    name: proc_name,
                    ret_layout: spec_layout_unit(),
                    arg_layouts: slice1(layout),
                },
                arguments: slice1(structure),
            },
        ),
        spec_layout_unit(),
        following,
    )
}

/// The statements at a call site that drop one reference to `structure`
/// without a helper: the pointer to the reference count, then the atomic
/// decrement on it.
pub open spec fn decref_call_site<'a>(
    structure: Symbol,
    rc_ptr: Symbol,
    call_result: Symbol,
    following: &'a Stmt<'a>,
) -> Stmt<'a> {
    Stmt::Let(
        rc_ptr,
        Expr::Call(
            Call {
                call_type: CallType::LowLevel { op: LowLevel::RefCountGetPtr },
                arguments: slice1(structure),
            },
        ),
        spec_layout_ptr(),
        &Stmt::Let(
            call_result,
            Expr::Call(
                Call {
                    call_type: CallType::LowLevel { op: LowLevel::RefCountDec },
                    arguments: slice1(rc_ptr),
                },
            ),
            spec_layout_unit(),
            following,
        ),
    )
}

/// The arguments of a helper: the value, and for an increment the amount.
pub open spec fn helper_args<'a>(op: RefcountOp, layout: Layout<'a>, layout_isize: Layout<'a>) -> &'a [(
    Layout<'a>,
    Symbol,
)] {
    match op {
        RefcountOp::Inc => slice2(
            (layout, Symbol::spec_arg_1()),
            (layout_isize, Symbol::spec_arg_2()),
        ),
        _ => slice1((layout, Symbol::spec_arg_1())),
    }
}

/// The statements that give back the empty struct.
pub open spec fn unit_return<'a>(unit: Symbol) -> Stmt<'a> {
    Stmt::Let(unit, Expr::Struct(slice0()), spec_layout_unit(), &Stmt::Ret(unit))
}

/// The call of the atomic primitive in a helper for strings.
pub open spec fn str_primitive_call<'a>(op: RefcountOp, rc_ptr: Symbol, alignment: Symbol) -> Expr<
    'a,
> {
    match op {
        RefcountOp::Inc => Expr::Call(
            Call {
                call_type: CallType::LowLevel { op: LowLevel::RefCountInc },
                arguments: slice2(rc_ptr, Symbol::spec_arg_2()),
            },
        ),
        _ => Expr::Call(
            Call {
                call_type: CallType::LowLevel { op: LowLevel::RefCountDec },
                arguments: slice2(rc_ptr, alignment),
            },
        ),
    }
}

/// What a helper for strings does with a string that lives on the heap:
/// it takes the pointer to the characters, from it the pointer to the
/// reference count, and calls the atomic primitive on that.
pub open spec fn str_heap_branch<'a>(
    home: ModuleId,
    ptr_size: u32,
    layout_isize: Layout<'a>,
    base: nat,
    op: RefcountOp,
) -> Stmt<'a> {
    let string = Symbol::spec_arg_1();
    let elements = Symbol { module_id: home, ident_id: (base + 3) as usize };
    let rc_ptr = Symbol { module_id: home, ident_id: (base + 4) as usize };
    let alignment = Symbol { module_id: home, ident_id: (base + 5) as usize };
    let result = Symbol { module_id: home, ident_id: (base + 6) as usize };
    Stmt::Let(
        elements,
        Expr::StructAtIndex {
            index: 0,
            field_layouts: slice2(spec_layout_ptr(), layout_isize),
            structure: string,
        },
        spec_layout_ptr(),
        &Stmt::Let(
            rc_ptr,
            Expr::Call(
                Call {
                    call_type: CallType::LowLevel { op: LowLevel::RefCountGetPtr },
                    arguments: slice1(elements),
                },
            ),
            spec_layout_ptr(),
            &Stmt::Let(
                alignment,
                Expr::Literal(Literal::Int(ptr_size as i128)),
                spec_layout_u32(),
                &Stmt::Let(
                    result,
                    str_primitive_call(op, rc_ptr, alignment),
                    spec_layout_unit(),
                    &Stmt::Ret(result),
                ),
            ),
        ),
    )
}

/// The body of a helper for strings, whose local names are the eight
/// identifiers from number `base` on. It reads the length as a signed
/// number. A length of at least zero is that of a string on the heap: the
/// helper goes on with `str_heap_branch`. A negative length marks a small
/// string, which holds its characters itself: the helper returns at once.
pub open spec fn str_helper_body<'a>(
    home: ModuleId,
    ptr_size: u32,
    layout_isize: Layout<'a>,
    base: nat,
    op: RefcountOp,
) -> Stmt<'a> {
    let string = Symbol::spec_arg_1();
    let len = Symbol { module_id: home, ident_id: base as usize };
    let zero = Symbol { module_id: home, ident_id: (base + 1) as usize };
    let is_big_str = Symbol { module_id: home, ident_id: (base + 2) as usize };
    let unit = Symbol { module_id: home, ident_id: (base + 7) as usize };
    Stmt::Let(
        len,
        Expr::StructAtIndex {
            index: 1,
            field_layouts: slice2(spec_layout_ptr(), layout_isize),
            structure: string,
        },
        layout_isize,
        &Stmt::Let(
            zero,
            Expr::Literal(Literal::Int(0)),
            layout_isize,
            &Stmt::Let(
                is_big_str,
                Expr::Call(
                    Call {
                        call_type: CallType::LowLevel { op: LowLevel::NumGte },
                        arguments: slice2(len, zero),
                    },
                ),
                spec_layout_bool(),
                &Stmt::Switch {
                    cond_symbol: is_big_str,
                    cond_layout: spec_layout_bool(),
                    branches: slice1((1u64, str_heap_branch(home, ptr_size, layout_isize, base, op))),
                    default_branch: &unit_return(unit),
                    ret_layout: spec_layout_unit(),
                },
            ),
        ),
    )
}

/// The helper for strings under the name `name`.
pub open spec fn str_helper<'a>(
    home: ModuleId,
    ptr_size: u32,
    layout_isize: Layout<'a>,
    base: nat,
    op: RefcountOp,
    name: Symbol,
) -> Proc<'a> {
    Proc {
        name,
        args: helper_args(op, spec_layout_str(), layout_isize),
        body: str_helper_body(home, ptr_size, layout_isize, base, op),
        closure_data_layout: None,
        ret_layout: spec_layout_unit(),
        is_self_recursive: false,
        must_own_arguments: false,
        is_host_exposed: false,
    }
}

/// The names of the local values of a helper for strings, in the order in
/// which the helper takes them.
pub open spec fn str_helper_locals() -> Seq<Seq<char>> {
    seq![
        "len"@,
        "zero"@,
        "is_big_str"@,
        "elements"@,
        "rc_ptr"@,
        "alignment"@,
        "zig_call_result"@,
        "unit"@,
    ]
}

/// Every helper is named by an identifier of the module `home` with a
/// number under `count`, and no two helpers by the same.
pub open spec fn names_below(entries: Seq<Pending<'_>>, home: ModuleId, count: nat) -> bool {
    &&& forall|k: int|
        0 <= k < entries.len() ==> (#[trigger] entries[k]).2.module_id == home
            && entries[k].2.ident_id < count
    &&& forall|j: int, k: int|
        0 <= j < k < entries.len() ==> (#[trigger] entries[j]).2 != (#[trigger] entries[k]).2
}

/// What a request for the helper of a layout and an operation comes to.
pub struct Request<'a> {
    /// The name of the helper.
    pub symbol: Symbol,
    /// The helper was registered by this request, not by an earlier one.
    pub is_new: bool,
    /// The registered helpers after the request.
    pub entries: Seq<Pending<'a>>,
    /// The identifiers of the module after the request.
    pub names: Seq<Seq<char>>,
}

/// A request for the helper of `layout` and `op`, on the registered helpers
/// `entries` and the identifiers `names` of the module `home`. Where a
/// helper is registered for the pair, the request names it and changes
/// nothing. Otherwise it registers one behind the others, under a new
/// identifier with the debug name of the pair.
pub open spec fn request<'a>(
    entries: Seq<Pending<'a>>,
    names: Seq<Seq<char>>,
    home: ModuleId,
    layout: Layout<'a>,
    op: RefcountOp,
) -> Request<'a> {
    match lookup(entries, layout, op) {
        Some(symbol) => Request { symbol, is_new: false, entries, names },
        None => {
            let symbol = Symbol { module_id: home, ident_id: names.len() as usize };
            Request {
                symbol,
                is_new: true,
                entries: entries.push((layout, op, symbol)),
                names: names.push(
                    helper_name(op, spec_layout_debug_name(layout), entries.len()),
                ),
            }
        },
    }
}

/// The local values of a helper for strings, `count` times over.
pub open spec fn locals_times(count: nat) -> Seq<Seq<char>>
    decreases count,
{
    if count == 0 {
        Seq::empty()
    } else {
        locals_times((count - 1) as nat) + str_helper_locals()
    }
}

/// Generates the intermediate representation of the helpers of one module.
pub struct CodeGenHelp<'a> {
    arena: &'a bumpalo::Bump,
    home: ModuleId,
    ptr_size: u32,
    layout_isize: Layout<'a>,
    /// The helpers to generate, in the order in which they were asked for.
    /// The order is kept: it decides the order of the symbols that the
    /// linker sees.
    rc_procs_to_generate: PendingProcs<'a>,
}

impl<'a> CodeGenHelp<'a> {
    /// The module for which helpers are generated.
    pub closed spec fn home(&self) -> ModuleId {
        self.home
    }

    /// Bytes of a pointer on the target.
    pub closed spec fn ptr_size(&self) -> u32 {
        self.ptr_size
    }

    /// The layout of the signed integer that is as wide as a pointer.
    pub closed spec fn layout_isize(&self) -> Layout<'a> {
        self.layout_isize
    }

    /// The helpers that are registered and not yet generated, in the order
    /// in which they were asked for.
    pub closed spec fn pending(&self) -> Seq<Pending<'a>> {
        pending_items(self.rc_procs_to_generate)
    }

    /// The invariant: helpers are registered for supported layouts only,
    /// and at most one for a layout and an operation.
    pub open spec fn wf(&self) -> bool {
        &&& all_supported(self.pending())
        &&& distinct_keys(self.pending())
    }

    /// The registered helpers are named by identifiers of `ident_ids`, no
    /// two by the same. This holds as long as every request is made with
    /// the one table of identifiers of the module.
    pub open spec fn names_known(&self, ident_ids: &IdentIds) -> bool {
        names_below(self.pending(), self.home(), ident_ids@.len())
    }

    /// Nothing but the registered helpers has changed.
    pub open spec fn same_target(&self, before: &Self) -> bool {
        &&& self.home() == before.home()
        &&& self.ptr_size() == before.ptr_size()
        &&& self.layout_isize() == before.layout_isize()
    }

    pub fn new(arena: &'a bumpalo::Bump, intwidth_isize: IntWidth, home: ModuleId) -> (help: Self)
        ensures
            help.wf(),
            help.home() == home,
            help.ptr_size() == intwidth_isize.spec_stack_size(),
            help.layout_isize() == Layout::Builtin(Builtin::Int(intwidth_isize)),
            help.pending() == Seq::<Pending<'a>>::empty(),
    {
        CodeGenHelp {
            arena,
            home,
            ptr_size: intwidth_isize.stack_size(),
            layout_isize: Layout::Builtin(Builtin::Int(intwidth_isize)),
            rc_procs_to_generate: PendingProcs::with_capacity_in(16, arena),
        }
    }

    /// Number of helpers that are registered and not yet generated.
    pub fn pending_len(&self) -> (n: usize)
        ensures
            n == self.pending().len(),
    {
        self.rc_procs_to_generate.len()
    }

    /// Whether helpers can be generated for the layout.
    pub fn layout_is_supported(layout: &Layout<'a>) -> (supported: bool)
        ensures
            supported == spec_layout_is_supported(*layout),
    {
        match layout {
            Layout::Builtin(Builtin::Str) => true,
            _ => false,
        }
    }

    /// Expands a request to change a reference count into the statements
    /// that stand for it, in front of the statement `following`.
    ///
    /// For a layout without helpers nothing is put in front and nothing is
    /// registered: the count is not changed, and the value leaks. An
    /// increment or a decrement becomes a call of the helper for the layout
    /// and the operation, which is registered if it was not. Then the
    /// helper's name and the layouts of its arguments and result are handed
    /// back, for the linker. The release of a last reference becomes the
    /// atomic decrement itself, without a helper.
    #[verifier::rlimit(40)]
    pub fn expand_refcount_stmt(
        &mut self,
        ident_ids: &mut IdentIds,
        layout: Layout<'a>,
        modify: &ModifyRc,
        following: &'a Stmt<'a>,
    ) -> (expanded: (&'a Stmt<'a>, Option<(Symbol, ProcLayout<'a>)>))
        requires
            old(self).wf(),
        ensures
            final(self).wf(),
            final(self).same_target(old(self)),
            old(self).names_known(old(ident_ids)) ==> final(self).names_known(final(ident_ids)),
            !spec_layout_is_supported(layout) ==> {
                &&& expanded == (following, None::<(Symbol, ProcLayout<'a>)>)
                &&& final(self).pending() == old(self).pending()
                &&& final(ident_ids)@ == old(ident_ids)@
            },
            spec_layout_is_supported(layout) ==> match *modify {
                ModifyRc::Inc(structure, amount) => {
                    let req = request(
                        old(self).pending(),
                        old(ident_ids)@,
                        old(self).home(),
                        layout,
                        RefcountOp::Inc,
                    );
                    let amount_sym = Symbol {
                        module_id: old(self).home(),
                        ident_id: req.names.len() as usize,
                    };
                    let call_result = Symbol {
                        module_id: old(self).home(),
                        ident_id: (req.names.len() + 1) as usize,
                    };
                    &&& *expanded.0 == inc_call_site(
                        layout,
                        old(self).layout_isize(),
                        structure,
                        amount,
                        req.symbol,
                        amount_sym,
                        call_result,
                        following,
                    )
                    &&& expanded.1 == (if req.is_new {
                        Some(
                            (
                                req.symbol,
                                ProcLayout {
                                    arguments: slice2(layout, old(self).layout_isize()),
                                    result: spec_layout_unit(),
                                },
                            ),
                        )
                    } else {
                        None
                    })
                    &&& final(self).pending() == req.entries
                    &&& final(ident_ids)@ == req.names.push("amount"@).push("call_result_empty"@)
                },
                ModifyRc::Dec(structure) => {
                    let req = request(
                        old(self).pending(),
                        old(ident_ids)@,
                        old(self).home(),
                        layout,
                        RefcountOp::Dec,
                    );
                    let call_result = Symbol {
                        module_id: old(self).home(),
                        ident_id: req.names.len() as usize,
                    };
                    &&& *expanded.0 == dec_call_site(
                        layout,
                        structure,
                        req.symbol,
                        call_result,
                        following,
                    )
                    &&& expanded.1 == (if req.is_new {
                        Some(
                            (
                                req.symbol,
                                ProcLayout {
                                    arguments: slice1(layout),
                                    result: spec_layout_unit(),
                                },
                            ),
                        )
                    } else {
                        None
                    })
                    &&& final(self).pending() == req.entries
                    &&& final(ident_ids)@ == req.names.push("call_result_empty"@)
                },
                ModifyRc::DecRef(structure) => {
                    let rc_ptr = Symbol {
                        module_id: old(self).home(),
                        ident_id: old(ident_ids)@.len() as usize,
                    };
                    let call_result = Symbol {
                        module_id: old(self).home(),
                        ident_id: (old(ident_ids)@.len() + 1) as usize,
                    };
                    &&& *expanded.0 == decref_call_site(structure, rc_ptr, call_result, following)
                    &&& expanded.1 == None::<(Symbol, ProcLayout<'a>)>
                    &&& final(self).pending() == old(self).pending()
                    &&& final(ident_ids)@ == old(ident_ids)@.push("rc_ptr"@).push(
                        "call_result_empty"@,
                    )
                },
            },
    {
        if !Self::layout_is_supported(&layout) {
            return (following, None);
        }
        proof {
            ident_ids.lemma_len_bound();
            if self.names_known(ident_ids) {
                lemma_request_keeps_names(
                    self.pending(),
                    ident_ids@,
                    self.home(),
                    layout,
                    RefcountOp::Inc,
                );
                lemma_request_keeps_names(
                    self.pending(),
                    ident_ids@,
                    self.home(),
                    layout,
                    RefcountOp::Dec,
                );
            }
        }
        let arena = self.arena;
        let unit = Layout::Struct(alloc_slice0(arena));

        match *modify {
            ModifyRc::Inc(structure, amount) => {
                let layout_isize = self.layout_isize;

                let (is_existing, proc_name) = self.get_proc_symbol(
                    ident_ids,
                    layout,
                    RefcountOp::Inc,
                );

                // Define a constant for the amount to increment
                let amount_sym = self.create_symbol(ident_ids, "amount");
                let amount_expr = Expr::Literal(Literal::Int(amount as i128));

                // Call helper proc, passing the structure and constant amount
                let arg_layouts = alloc_slice2(arena, layout, layout_isize);
                let call_result_empty = self.create_symbol(ident_ids, "call_result_empty");
                let call_expr = Expr::Call(
                    Call {
                        call_type: CallType::ByName {
                            name: proc_name,
                            ret_layout: unit,
                            arg_layouts,
                        },
                        arguments: alloc_slice2(arena, structure, amount_sym),
                    },
                );
                let call_stmt = Stmt::Let(call_result_empty, call_expr, unit, following);
                let rc_stmt = arena_alloc(
                    arena,
                    Stmt::Let(amount_sym, amount_expr, layout_isize, arena_alloc(arena, call_stmt)),
                );

                // Create a linker symbol for the helper proc if this is the first usage
                let new_proc_info = if is_existing {
                    None
                } else {
                    Some((proc_name, ProcLayout { arguments: arg_layouts, result: unit }))
                };

                (rc_stmt, new_proc_info)
            },
            ModifyRc::Dec(structure) => {
                let (is_existing, proc_name) = self.get_proc_symbol(
                    ident_ids,
                    layout,
                    RefcountOp::Dec,
                );

                // Call helper proc, passing the structure
                let arg_layouts = alloc_slice1(arena, layout);
                let call_result_empty = self.create_symbol(ident_ids, "call_result_empty");
                let call_expr = Expr::Call(
                    Call {
                        call_type: CallType::ByName {
                            name: proc_name,
                            ret_layout: unit,
                            arg_layouts,
                        },
                        arguments: alloc_slice1(arena, structure),
                    },
                );

                let rc_stmt = arena_alloc(
                    arena,
                    Stmt::Let(call_result_empty, call_expr, unit, following),
                );

                // Create a linker symbol for the helper proc if this is the first usage
                let new_proc_info = if is_existing {
                    None
                } else {
                    Some((proc_name, ProcLayout { arguments: arg_layouts, result: unit }))
                };

                (rc_stmt, new_proc_info)
            },
            ModifyRc::DecRef(structure) => {
                // No generated procs for DecRef, just lowlevel calls
                // Get a pointer to the refcount itself
                let rc_ptr_sym = self.create_symbol(ident_ids, "rc_ptr");
                let rc_ptr_expr = Expr::Call(
                    Call {
                        call_type: CallType::LowLevel { op: LowLevel::RefCountGetPtr },
                        arguments: alloc_slice1(arena, structure),
                    },
                );

                // Pass the refcount pointer to the lowlevel call
                let call_result_empty = self.create_symbol(ident_ids, "call_result_empty");
                let call_expr = Expr::Call(
                    Call {
                        call_type: CallType::LowLevel { op: LowLevel::RefCountDec },
                        arguments: alloc_slice1(arena, rc_ptr_sym),
                    },
                );
                let call_stmt = Stmt::Let(call_result_empty, call_expr, unit, following);
                let rc_stmt = arena_alloc(
                    arena,
                    Stmt::Let(
                        rc_ptr_sym,
                        rc_ptr_expr,
                        Layout::RecursivePointer(LAYOUT_VOID),
                        arena_alloc(arena, call_stmt),
                    ),
                );

                (rc_stmt, None)
            },
        }
    }

    /// Generates the helpers that were registered, in the order in which
    /// they were asked for, and forgets them. Each helper takes its local
    /// names from the identifiers of the module.
    #[verifier::rlimit(40)]
    pub fn generate_procs(&mut self, arena: &'a bumpalo::Bump, ident_ids: &mut IdentIds) -> (procs:
        ProcList<'a>)
        requires
            old(self).wf(),
        ensures
            final(self).wf(),
            final(self).same_target(old(self)),
            final(self).pending() == Seq::<Pending<'a>>::empty(),
            proc_items(procs).len() == old(self).pending().len(),
            forall|i: int|
                0 <= i < old(self).pending().len() ==> (#[trigger] proc_items(procs)[i])
                    == str_helper(
                    old(self).home(),
                    old(self).ptr_size(),
                    old(self).layout_isize(),
                    (old(ident_ids)@.len() + STR_HELPER_LOCALS * i) as nat,
                    old(self).pending()[i].1,
                    old(self).pending()[i].2,
                ),
            final(ident_ids)@ == old(ident_ids)@ + locals_times(old(self).pending().len()),
            old(self).names_known(old(ident_ids)) ==> forall|i: int, j: int|
                0 <= i < j < proc_items(procs).len() ==> (#[trigger] proc_items(procs)[i]).name != (
                #[trigger] proc_items(procs)[j]).name,
    {
        let count = self.rc_procs_to_generate.len();
        let mut generated: Vec<Proc<'a>> = Vec::new();
        let mut i: usize = 0;
        while i < count
            invariant
                count == self.pending().len(),
                *self == *old(self),
                self.wf(),
                i <= count,
                generated@.len() == i,
                ident_ids@ == old(ident_ids)@ + locals_times(i as nat),
                forall|k: int|
                    0 <= k < i ==> (#[trigger] generated@[k]) == str_helper(
                        self.home(),
                        self.ptr_size(),
                        self.layout_isize(),
                        (old(ident_ids)@.len() + STR_HELPER_LOCALS * k) as nat,
                        self.pending()[k].1,
                        self.pending()[k].2,
                    ),
            decreases count - i,
        {
            let (layout, op, proc_symbol) = self.rc_procs_to_generate.get(i);
            assert(spec_layout_is_supported(self.pending()[i as int].0));
            proof {
                lemma_locals_len(i as nat);
                assert(locals_times((i + 1) as nat) == locals_times(i as nat) + str_helper_locals());
            }
            let generated_proc = self.gen_modify_str(ident_ids, op, proc_symbol);
            generated.push(generated_proc);
            i += 1;
        }
        self.rc_procs_to_generate.clear();
        ProcList::from_vec_in(generated, arena)
    }

    /// Find the symbol of the procedure for this layout and refcount
    /// operation, or create one if needed.
    #[verifier::rlimit(40)]
    fn get_proc_symbol(&mut self, ident_ids: &mut IdentIds, layout: Layout<'a>, op: RefcountOp) -> (found:
        (bool, Symbol))
        requires
            old(self).wf(),
            spec_layout_is_supported(layout),
        ensures
            final(self).wf(),
            final(self).same_target(old(self)),
            ({
                let req = request(
                    old(self).pending(),
                    old(ident_ids)@,
                    old(self).home(),
                    layout,
                    op,
                );
                &&& found == (!req.is_new, req.symbol)
                &&& final(self).pending() == req.entries
                &&& final(ident_ids)@ == req.names
            }),
    {
        let count = self.rc_procs_to_generate.len();
        let mut i: usize = 0;
        while i < count
            invariant
                count == self.pending().len(),
                *self == *old(self),
                self.wf(),
                i <= count,
                forall|k: int|
                    0 <= k < i ==> !((#[trigger] self.pending()[k]).0 == layout
                        && self.pending()[k].1 == op),
            decreases count - i,
        {
            let (l, o, existing_symbol) = self.rc_procs_to_generate.get(i);
            if l.same(&layout) && o == op {
                proof {
                    lemma_lookup_at(self.pending(), layout, op, i as int);
                }
                return (true, existing_symbol);
            }
            i += 1;
        }
        proof {
            lemma_lookup_at(self.pending(), layout, op, count as int);
        }
        let layout_name = layout_debug_name(&layout);
        let unique_idx = self.rc_procs_to_generate.len();
        let debug_name = format_helper_name(op_text(op), layout_name, unique_idx);
        let new_symbol: Symbol = self.create_symbol(ident_ids, debug_name.as_str());
        self.rc_procs_to_generate.push((layout, op, new_symbol));
        proof {
            let before = old(self).pending();
            let after = self.pending();
            assert forall|j: int, k: int| 0 <= j < k < after.len() implies !((
            #[trigger] after[j]).0 == (#[trigger] after[k]).0 && after[j].1 == after[k].1) by {
                assert(after[j] == before[j]);
                if k < before.len() {
                    assert(after[k] == before[k]);
                }
            }
            assert forall|k: int| 0 <= k < after.len() implies spec_layout_is_supported(
                (#[trigger] after[k]).0,
            ) by {
                if k < before.len() {
                    assert(after[k] == before[k]);
                }
            }
        }
        (false, new_symbol)
    }

    fn create_symbol(&self, ident_ids: &mut IdentIds, debug_name: &str) -> (symbol: Symbol)
        ensures
            symbol == (Symbol { module_id: self.home(), ident_id: old(ident_ids)@.len() as usize }),
            final(ident_ids)@ == old(ident_ids)@.push(debug_name@),
    {
        let ident_id = ident_ids.add(debug_name.to_owned());
        Symbol::new(self.home, ident_id)
    }

    fn return_unit(&self, ident_ids: &mut IdentIds) -> (stmt: Stmt<'a>)
        ensures
            stmt == unit_return::<'a>(
                Symbol { module_id: self.home(), ident_id: old(ident_ids)@.len() as usize },
            ),
            final(ident_ids)@ == old(ident_ids)@.push("unit"@),
    {
        let unit = self.create_symbol(ident_ids, "unit");
        let ret_stmt = arena_alloc(self.arena, Stmt::Ret(unit));
        Stmt::Let(
            unit,
            Expr::Struct(alloc_slice0(self.arena)),
            Layout::Struct(alloc_slice0(self.arena)),
            ret_stmt,
        )
    }

    fn gen_args(&self, op: RefcountOp, layout: Layout<'a>) -> (args: &'a [(Layout<'a>, Symbol)])
        ensures
            args == helper_args(op, layout, self.layout_isize()),
    {
        let value_arg = (layout, Symbol::arg_1());
        match op {
            RefcountOp::Inc => {
                let inc_amount = (self.layout_isize, Symbol::arg_2());
                alloc_slice2(self.arena, value_arg, inc_amount)
            },
            RefcountOp::Dec | RefcountOp::DecRef => alloc_slice1(self.arena, value_arg),
        }
    }

    /// Generate a procedure to modify the reference count of a string.
    #[verifier::rlimit(40)]
    pub fn gen_modify_str(&self, ident_ids: &mut IdentIds, op: RefcountOp, proc_name: Symbol) -> (proc:
        Proc<'a>)
        ensures
            proc == str_helper(
                self.home(),
                self.ptr_size(),
                self.layout_isize(),
                old(ident_ids)@.len(),
                op,
                proc_name,
            ),
            final(ident_ids)@ == old(ident_ids)@ + str_helper_locals(),
    {
        let arena = self.arena;
        let string = Symbol::arg_1();
        let layout_isize = self.layout_isize;
        let layout_ptr = Layout::RecursivePointer(LAYOUT_VOID);
        let layout_bool = Layout::Builtin(Builtin::Bool);
        let layout_unit = Layout::Struct(alloc_slice0(arena));
        let layout_u32 = Layout::Builtin(Builtin::Int(IntWidth::U32));

        // Get the string length as a signed int
        let len = self.create_symbol(ident_ids, "len");
        let len_expr = Expr::StructAtIndex {
            index: 1,
            field_layouts: alloc_slice2(arena, layout_ptr, layout_isize),
            structure: string,
        };

        // Zero
        let zero = self.create_symbol(ident_ids, "zero");
        let zero_expr = Expr::Literal(Literal::Int(0));

        // is_big_str = (len >= 0);
        // Treat len as isize so that the small string flag is the same as the sign bit
        let is_big_str = self.create_symbol(ident_ids, "is_big_str");
        let is_big_str_expr = Expr::Call(
            Call {
                call_type: CallType::LowLevel { op: LowLevel::NumGte },
                arguments: alloc_slice2(arena, len, zero),
            },
        );

        // Get the pointer to the string elements
        let elements = self.create_symbol(ident_ids, "elements");
        let elements_expr = Expr::StructAtIndex {
            index: 0,
            field_layouts: alloc_slice2(arena, layout_ptr, layout_isize),
            structure: string,
        };

        // Get a pointer to the refcount value, just below the elements pointer
        let rc_ptr = self.create_symbol(ident_ids, "rc_ptr");
        let rc_ptr_expr = Expr::Call(
            Call {
                call_type: CallType::LowLevel { op: LowLevel::RefCountGetPtr },
                arguments: alloc_slice1(arena, elements),
            },
        );

        // Alignment constant
        let alignment = self.create_symbol(ident_ids, "alignment");
        let alignment_expr = Expr::Literal(Literal::Int(self.ptr_size as i128));

        // Call the relevant primitive to actually modify the refcount
        let zig_call_result = self.create_symbol(ident_ids, "zig_call_result");
        let zig_call_expr = match op {
            RefcountOp::Inc => Expr::Call(
                Call {
                    call_type: CallType::LowLevel { op: LowLevel::RefCountInc },
                    arguments: alloc_slice2(arena, rc_ptr, Symbol::arg_2()),
                },
            ),
            RefcountOp::Dec | RefcountOp::DecRef => Expr::Call(
                Call {
                    call_type: CallType::LowLevel { op: LowLevel::RefCountDec },
                    arguments: alloc_slice2(arena, rc_ptr, alignment),
                },
            ),
        };

        // Generate an `if` to skip small strings but modify big strings
        let then_branch = Stmt::Let(
            elements,
            elements_expr,
            layout_ptr,
            arena_alloc(
                arena,
                Stmt::Let(
                    rc_ptr,
                    rc_ptr_expr,
                    layout_ptr,
                    arena_alloc(
                        arena,
                        Stmt::Let(
                            alignment,
                            alignment_expr,
                            layout_u32,
                            arena_alloc(
                                arena,
                                Stmt::Let(
                                    zig_call_result,
                                    zig_call_expr,
                                    layout_unit,
                                    arena_alloc(arena, Stmt::Ret(zig_call_result)),
                                ),
                            ),
                        ),
                    ),
                ),
            ),
        );
        let default_branch = self.return_unit(ident_ids);
        let if_stmt = Stmt::Switch {
            cond_symbol: is_big_str,
            cond_layout: layout_bool,
            branches: alloc_slice1(arena, (1u64, then_branch)),
            default_branch: arena_alloc(arena, default_branch),
            ret_layout: layout_unit,
        };

        // Combine the statements in sequence
        let body = Stmt::Let(
            len,
            len_expr,
            layout_isize,
            arena_alloc(
                arena,
                Stmt::Let(
                    zero,
                    zero_expr,
                    layout_isize,
                    arena_alloc(
                        arena,
                        Stmt::Let(
                            is_big_str,
                            is_big_str_expr,
                            layout_bool,
                            arena_alloc(arena, if_stmt),
                        ),
                    ),
                ),
            ),
        );

        let args = self.gen_args(op, Layout::Builtin(Builtin::Str));

        proof {
            assert(ident_ids@ =~= old(ident_ids)@ + str_helper_locals());
        }

        Proc {
            name: proc_name,
            args,
            body,
            closure_data_layout: None,
            ret_layout: layout_unit,
            is_self_recursive: false,
            must_own_arguments: false,
            is_host_exposed: false,
        }
    }
}

/// `count` helpers take eight names each.
pub proof fn lemma_locals_len(count: nat)
    ensures
        locals_times(count).len() == STR_HELPER_LOCALS * count,
    decreases count,
{
    if count > 0 {
        lemma_locals_len((count - 1) as nat);
    }
}

/// What `lookup` finds after one more helper was registered.
pub proof fn lemma_lookup_push(
    entries: Seq<Pending<'_>>,
    entry: Pending<'_>,
    layout: Layout<'_>,
    op: RefcountOp,
)
    ensures
        lookup(entries.push(entry), layout, op) == (match lookup(entries, layout, op) {
            Some(symbol) => Some(symbol),
            None => if entry.0 == layout && entry.1 == op {
                Some(entry.2)
            } else {
                None
            },
        }),
    decreases entries.len(),
{
    let pushed = entries.push(entry);
    if entries.len() == 0 {
        assert(pushed.subrange(1, 1) =~= Seq::<Pending<'_>>::empty());
        assert(lookup(pushed.subrange(1, 1), layout, op) is None);
    } else {
        assert(pushed[0] == entries[0]);
        let rest = entries.subrange(1, entries.len() as int);
        assert(pushed.subrange(1, pushed.len() as int) =~= rest.push(entry));
        lemma_lookup_push(rest, entry, layout, op);
    }
}

/// Where `lookup` finds nothing, no helper is registered for the layout
/// and the operation.
pub proof fn lemma_lookup_none(entries: Seq<Pending<'_>>, layout: Layout<'_>, op: RefcountOp)
    requires
        lookup(entries, layout, op) is None,
    ensures
        forall|k: int|
            0 <= k < entries.len() ==> !((#[trigger] entries[k]).0 == layout && entries[k].1 == op),
    decreases entries.len(),
{
    if entries.len() > 0 {
        let rest = entries.subrange(1, entries.len() as int);
        lemma_lookup_none(rest, layout, op);
        assert forall|k: int| 0 <= k < entries.len() implies !((#[trigger] entries[k]).0 == layout
            && entries[k].1 == op) by {
            if k > 0 {
                assert(entries[k] == rest[k - 1]);
            }
        }
    }
}

/// Asking twice is asking once.
///
/// Of two requests for the helper of the same layout and operation, one
/// behind the other, the second names the helper that the first named,
/// registers nothing and takes no identifier. And where no two helpers
/// were registered for one layout and operation before, none are after:
/// so one body at most is generated for each.
pub proof fn lemma_request_idempotent<'a>(
    entries: Seq<Pending<'a>>,
    names: Seq<Seq<char>>,
    home: ModuleId,
    layout: Layout<'a>,
    op: RefcountOp,
)
    ensures
        ({
            let first = request(entries, names, home, layout, op);
            let second = request(first.entries, first.names, home, layout, op);
            &&& second.symbol == first.symbol
            &&& !second.is_new
            &&& second.entries == first.entries
            &&& second.names == first.names
            &&& lookup(first.entries, layout, op) == Some(first.symbol)
            &&& distinct_keys(entries) ==> distinct_keys(first.entries)
        }),
{
    let first = request(entries, names, home, layout, op);
    if lookup(entries, layout, op) is None {
        lemma_lookup_push(entries, (layout, op, first.symbol), layout, op);
        lemma_lookup_none(entries, layout, op);
    }
}

/// Helpers are generated for strings, with the arguments that their call
/// sites pass.
///
/// A request for a layout without helpers registers nothing. The helper
/// for an increment takes the string and the amount, the helper for a
/// decrement the string alone; both give back the empty struct.
pub proof fn lemma_helper_shapes<'a>(
    entries: Seq<Pending<'a>>,
    home: ModuleId,
    ptr_size: u32,
    layout_isize: Layout<'a>,
    base: nat,
    op: RefcountOp,
    name: Symbol,
)
    ensures
        all_supported(entries) ==> forall|i: int|
            0 <= i < entries.len() ==> (#[trigger] entries[i]).0 == spec_layout_str::<'a>(),
        ({
            let helper = str_helper(home, ptr_size, layout_isize, base, op, name);
            &&& helper.name == name
            &&& helper.ret_layout == spec_layout_unit::<'a>()
            &&& op == RefcountOp::Inc ==> helper.args@ == seq![
                (spec_layout_str::<'a>(), Symbol::spec_arg_1()),
                (layout_isize, Symbol::spec_arg_2()),
            ]
            &&& op != RefcountOp::Inc ==> helper.args@ == seq![
                (spec_layout_str::<'a>(), Symbol::spec_arg_1()),
            ]
        }),
{
    broadcast use vstd::array::group_array_axioms;
    broadcast use vstd::slice::group_slice_axioms;

    let helper = str_helper(home, ptr_size, layout_isize, base, op, name);
    if op == RefcountOp::Inc {
        assert(helper.args@ =~= seq![
            (spec_layout_str::<'a>(), Symbol::spec_arg_1()),
            (layout_isize, Symbol::spec_arg_2()),
        ]);
    } else {
        assert(helper.args@ =~= seq![(spec_layout_str::<'a>(), Symbol::spec_arg_1())]);
    }
}

/// A new helper gets a name that no other helper has.
///
/// Let the helpers be named by identifiers of the module that are in the
/// table of identifiers, no two by the same. Then the same holds after a
/// request that is made with that table.
pub proof fn lemma_request_keeps_names<'a>(
    entries: Seq<Pending<'a>>,
    names: Seq<Seq<char>>,
    home: ModuleId,
    layout: Layout<'a>,
    op: RefcountOp,
)
    requires
        names_below(entries, home, names.len()),
        names.len() <= usize::MAX,
    ensures
        ({
            let after = request(entries, names, home, layout, op);
            names_below(after.entries, home, after.names.len())
        }),
{
    let after = request(entries, names, home, layout, op);
    if lookup(entries, layout, op) is None {
        assert forall|k: int| 0 <= k < after.entries.len() implies (
        #[trigger] after.entries[k]).2.module_id == home && after.entries[k].2.ident_id
            < after.names.len() by {
            if k < entries.len() {
                assert(after.entries[k] == entries[k]);
            }
        }
        assert forall|j: int, k: int| 0 <= j < k < after.entries.len() implies (
        #[trigger] after.entries[j]).2 != (#[trigger] after.entries[k]).2 by {
            assert(after.entries[j] == entries[j]);
            if k < entries.len() {
                assert(after.entries[k] == entries[k]);
            }
        }
    }
}

/// A request for one helper does not touch another.
///
/// A request for the helper of a layout and an operation leaves the helper
/// of every other layout or operation as it was.
pub proof fn lemma_request_keeps_others<'a>(
    entries: Seq<Pending<'a>>,
    names: Seq<Seq<char>>,
    home: ModuleId,
    layout: Layout<'a>,
    op: RefcountOp,
    other_layout: Layout<'a>,
    other_op: RefcountOp,
)
    requires
        !(other_layout == layout && other_op == op),
    ensures
        lookup(request(entries, names, home, layout, op).entries, other_layout, other_op) == lookup(
            entries,
            other_layout,
            other_op,
        ),
{
    if lookup(entries, layout, op) is None {
        let symbol = Symbol { module_id: home, ident_id: names.len() as usize };
        lemma_lookup_push(entries, (layout, op, symbol), other_layout, other_op);
    }
}

impl<'a> ProcList<'a> {
    /// Number of procedures.
    pub fn len(&self) -> (n: usize)
        ensures
            n == proc_items(*self).len(),
    {
        self.vec_len()
    }

    /// The procedure at a position, if there is one.
    pub fn get(&self, index: usize) -> (item: Option<Proc<'a>>)
        ensures
            item == (if index < proc_items(*self).len() {
                Some(proc_items(*self)[index as int])
            } else {
                None
            }),
    {
        if index < self.vec_len() {
            Some(self.vec_get(index))
        } else {
            None
        }
    }

    /// The procedures, first to last.
    pub fn to_vec(&self) -> (procs: Vec<Proc<'a>>)
        ensures
            procs@ == proc_items(*self),
    {
        let count = self.vec_len();
        let mut procs: Vec<Proc<'a>> = Vec::new();
        let mut i: usize = 0;
        while i < count
            invariant
                count == proc_items(*self).len(),
                i <= count,
                procs@ == proc_items(*self).take(i as int),
            decreases count - i,
        {
            procs.push(self.vec_get(i));
            assert(procs@ =~= proc_items(*self).take(i + 1));
            i += 1;
        }
        assert(proc_items(*self).take(count as int) =~= proc_items(*self));
        procs
    }
}

} // verus!
