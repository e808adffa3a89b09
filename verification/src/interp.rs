//! What the statements of a helper do when they run: a model of the
//! backend's machine, as far as reference counts go. It is the yardstick
//! for the helpers that this library writes, and no part of the compiled
//! code.
use crate::ir::{Call, CallType, Expr, Literal, LowLevel, Stmt};
use crate::layout::Layout;
use crate::refcount::{
    dec_call_site, decref_call_site, inc_call_site, slice0, slice1, slice2, str_heap_branch,
    str_helper_body, RefcountOp, STR_HELPER_LOCALS,
};
use crate::symbol::{ModuleId, Symbol, ATTR_MODULE};
use vstd::prelude::*;

verus! {

/// A value at run time.
pub enum Val {
    Int(int),
    Bool(bool),
    /// An address.
    Ptr(int),
    /// A string: the address of its characters, and its length field read
    /// as a signed number. A small string has a negative one.
    Str { elements: int, len: int },
    Unit,
}

/// What a helper does that can be seen from outside.
pub enum Effect {
    /// The atomic increment of the count at an address by an amount.
    AtomicInc { rc_ptr: int, amount: int },
    /// The atomic decrement of the count at an address, with the alignment
    /// of the allocation where it was given.
    AtomicDec { rc_ptr: int, alignment: Option<int> },
    /// The call of a procedure by its name.
    CallByName { name: Symbol, arguments: Seq<Val> },
}

/// How a run ends.
pub enum End {
    Returned(Val),
    /// The run has reached a statement of the caller.
    Foreign(u64),
    /// A statement could not be run, or the steps ran out.
    Stuck,
}

/// A run: its effects in order, and its end.
pub struct Run {
    pub effects: Seq<Effect>,
    pub end: End,
}

/// The address of the reference count of the allocation whose payload
/// begins at `payload`: the word in front of it.
pub open spec fn refcount_address(payload: int, ptr_size: int) -> int {
    payload - ptr_size
}

/// The values of the names, where all of them are bound.
pub open spec fn values_of(names: Seq<Symbol>, env: Map<Symbol, Val>) -> Option<Seq<Val>> {
    if forall|i: int| 0 <= i < names.len() ==> env.contains_key(#[trigger] names[i]) {
        Some(Seq::new(names.len(), |i: int| env[names[i]]))
    } else {
        None
    }
}

/// The value and the effect of a primitive on its arguments.
pub open spec fn run_low_level(op: LowLevel, arguments: Seq<Val>, ptr_size: int) -> Option<
    (Val, Seq<Effect>),
> {
    match op {
        LowLevel::NumGte => {
            if arguments.len() == 2 {
                match (arguments[0], arguments[1]) {
                    (Val::Int(left), Val::Int(right)) => Some(
                        (Val::Bool(left >= right), Seq::empty()),
                    ),
                    _ => None,
                }
            } else {
                None
            }
        },
        LowLevel::RefCountGetPtr => {
            if arguments.len() == 1 {
                match arguments[0] {
                    Val::Ptr(payload) => Some(
                        (Val::Ptr(refcount_address(payload, ptr_size)), Seq::empty()),
                    ),
                    Val::Str { elements, .. } => Some(
                        (Val::Ptr(refcount_address(elements, ptr_size)), Seq::empty()),
                    ),
                    _ => None,
                }
            } else {
                None
            }
        },
        LowLevel::RefCountInc => {
            if arguments.len() == 2 {
                match (arguments[0], arguments[1]) {
                    (Val::Ptr(rc_ptr), Val::Int(amount)) => Some(
                        (Val::Unit, seq![Effect::AtomicInc { rc_ptr, amount }]),
                    ),
                    _ => None,
                }
            } else {
                None
            }
        },
        LowLevel::RefCountDec => {
            if arguments.len() == 2 {
                match (arguments[0], arguments[1]) {
                    (Val::Ptr(rc_ptr), Val::Int(alignment)) => Some(
                        (Val::Unit, seq![Effect::AtomicDec { rc_ptr, alignment: Some(alignment) }]),
                    ),
                    _ => None,
                }
            } else if arguments.len() == 1 {
                match arguments[0] {
                    Val::Ptr(rc_ptr) => Some(
                        (Val::Unit, seq![Effect::AtomicDec { rc_ptr, alignment: None }]),
                    ),
                    _ => None,
                }
            } else {
                None
            }
        },
    }
}

/// The value and the effects of an expression, where it can be run.
pub open spec fn run_expr(expr: Expr<'_>, env: Map<Symbol, Val>, ptr_size: int) -> Option<
    (Val, Seq<Effect>),
> {
    match expr {
        Expr::Literal(Literal::Int(n)) => Some((Val::Int(n as int), Seq::empty())),
        Expr::Struct(fields) => if fields@.len() == 0 {
            Some((Val::Unit, Seq::empty()))
        } else {
            None
        },
        Expr::StructAtIndex { index, structure, .. } => {
            if env.contains_key(structure) {
                match env[structure] {
                    Val::Str { elements, len } => if index == 0 {
                        Some((Val::Ptr(elements), Seq::empty()))
                    } else if index == 1 {
                        Some((Val::Int(len), Seq::empty()))
                    } else {
                        None
                    },
                    _ => None,
                }
            } else {
                None
            }
        },
        Expr::Call(Call { call_type, arguments }) => match values_of(arguments@, env) {
            Some(values) => match call_type {
                CallType::LowLevel { op } => run_low_level(op, values, ptr_size),
                CallType::ByName { name, .. } => Some(
                    (Val::Unit, seq![Effect::CallByName { name, arguments: values }]),
                ),
            },
            None => None,
        },
    }
}

/// The number by which a switch picks its branch.
pub open spec fn switch_number(value: Val) -> Option<int> {
    match value {
        Val::Bool(b) => Some(
            if b {
                1int
            } else {
                0int
            },
        ),
        Val::Int(n) => Some(n),
        _ => None,
    }
}

/// The position of the first branch for a number, from `from` on.
pub open spec fn find_branch(branches: Seq<(u64, Stmt<'_>)>, number: int, from: int) -> Option<int>
    decreases branches.len() - from,
{
    if from < 0 || from >= branches.len() {
        None
    } else if branches[from].0 == number {
        Some(from)
    } else {
        find_branch(branches, number, from + 1)
    }
}

/// The run of a statement in `steps` steps at most, from the bindings
/// `env`, on a target whose pointers have `ptr_size` bytes.
pub open spec fn run(stmt: Stmt<'_>, env: Map<Symbol, Val>, ptr_size: int, steps: nat) -> Run
    decreases steps,
{
    if steps == 0 {
        Run { effects: Seq::empty(), end: End::Stuck }
    } else {
        match stmt {
            Stmt::Let(name, expr, _, next) => match run_expr(expr, env, ptr_size) {
                Some((value, effects)) => {
                    let rest = run(*next, env.insert(name, value), ptr_size, (steps - 1) as nat);
                    Run { effects: effects + rest.effects, end: rest.end }
                },
                None => Run { effects: Seq::empty(), end: End::Stuck },
            },
            Stmt::Switch { cond_symbol, branches, default_branch, .. } => {
                if env.contains_key(cond_symbol) {
                    match switch_number(env[cond_symbol]) {
                        Some(number) => match find_branch(branches@, number, 0) {
                            Some(at) => run(branches@[at].1, env, ptr_size, (steps - 1) as nat),
                            None => run(*default_branch, env, ptr_size, (steps - 1) as nat),
                        },
                        None => Run { effects: Seq::empty(), end: End::Stuck },
                    }
                } else {
                    Run { effects: Seq::empty(), end: End::Stuck }
                }
            },
            Stmt::Ret(name) => if env.contains_key(name) {
                Run { effects: Seq::empty(), end: End::Returned(env[name]) }
            } else {
                Run { effects: Seq::empty(), end: End::Stuck }
            },
            Stmt::Foreign(number) => Run { effects: Seq::empty(), end: End::Foreign(number) },
        }
    }
}

/// What the slices of none, one and two items hold.
pub proof fn lemma_slices<T>(first: T, second: T)
    ensures
        slice0::<T>()@ == Seq::<T>::empty(),
        slice1(first)@ == seq![first],
        slice2(first, second)@ == seq![first, second],
{
    broadcast use vstd::array::group_array_axioms;
    broadcast use vstd::slice::group_slice_axioms;

    assert(slice0::<T>()@ =~= Seq::<T>::empty());
    assert(slice1(first)@ =~= seq![first]);
    assert(slice2(first, second)@ =~= seq![first, second]);
}

/// The effect of the primitive that a helper for strings calls.
pub open spec fn str_helper_effect(op: RefcountOp, elements: int, amount: int, ptr_size: int) -> Effect {
    match op {
        RefcountOp::Inc => Effect::AtomicInc {
            rc_ptr: refcount_address(elements, ptr_size),
            amount,
        },
        _ => Effect::AtomicDec {
            rc_ptr: refcount_address(elements, ptr_size),
            alignment: Some(ptr_size),
        },
    }
}

/// A helper for strings leaves a small string alone and calls the atomic
/// primitive exactly once for a string on the heap.
///
/// The helper runs on a string whose characters are at `elements` and whose
/// length field reads `len` as a signed number, and for an increment on the
/// amount `amount`. If `len` is negative, the string is small: the helper
/// has no effect. Otherwise its only effect is the atomic increment by
/// `amount`, or the atomic decrement, of the count in front of the
/// characters. Either way it returns the empty struct. The helper's local
/// names are identifiers of `home`, which is not the module of the argument
/// names.
#[verifier::rlimit(40)]
pub proof fn lemma_str_helper_effects<'a>(
    home: ModuleId,
    ptr_size: u32,
    layout_isize: Layout<'a>,
    base: nat,
    op: RefcountOp,
    elements: int,
    len: int,
    amount: int,
    steps: nat,
)
    requires
        home != ATTR_MODULE,
        base + STR_HELPER_LOCALS <= usize::MAX,
        steps >= 10,
    ensures
        ({
            let env = map![
                Symbol::spec_arg_1() => Val::Str { elements, len },
                Symbol::spec_arg_2() => Val::Int(amount),
            ];
            let outcome = run(
                str_helper_body(home, ptr_size, layout_isize, base, op),
                env,
                ptr_size as int,
                steps,
            );
            &&& outcome.end == End::Returned(Val::Unit)
            &&& len < 0 ==> outcome.effects == Seq::<Effect>::empty()
            &&& len >= 0 ==> outcome.effects == seq![
                str_helper_effect(op, elements, amount, ptr_size as int),
            ]
        }),
{
    let string = Symbol::spec_arg_1();
    let sym_len = Symbol { module_id: home, ident_id: base as usize };
    let zero = Symbol { module_id: home, ident_id: (base + 1) as usize };
    let is_big_str = Symbol { module_id: home, ident_id: (base + 2) as usize };
    let sym_elements = Symbol { module_id: home, ident_id: (base + 3) as usize };
    let rc_ptr = Symbol { module_id: home, ident_id: (base + 4) as usize };
    let alignment = Symbol { module_id: home, ident_id: (base + 5) as usize };
    let result = Symbol { module_id: home, ident_id: (base + 6) as usize };
    let unit = Symbol { module_id: home, ident_id: (base + 7) as usize };
    let p = ptr_size as int;

    lemma_slices(sym_len, zero);
    lemma_slices(sym_elements, zero);
    lemma_slices(rc_ptr, Symbol::spec_arg_2());
    lemma_slices(rc_ptr, alignment);
    let heap = str_heap_branch(home, ptr_size, layout_isize, base, op);
    lemma_slices((1u64, heap), (1u64, heap));

    let env0 = map![
        Symbol::spec_arg_1() => Val::Str { elements, len },
        Symbol::spec_arg_2() => Val::Int(amount),
    ];
    let env1 = env0.insert(sym_len, Val::Int(len));
    let env2 = env1.insert(zero, Val::Int(0));
    let env3 = env2.insert(is_big_str, Val::Bool(len >= 0));

    assert(values_of(seq![sym_len, zero], env2) == Some(seq![Val::Int(len), Val::Int(0)])) by {
        assert(Seq::new(2, |i: int| env2[seq![sym_len, zero][i]]) =~= seq![
            Val::Int(len),
            Val::Int(0),
        ]);
    }

    let branches = seq![(1u64, heap)];
    if len >= 0 {
        assert(find_branch(branches, 1, 0) == Some(0int));
        let env4 = env3.insert(sym_elements, Val::Ptr(elements));
        let env5 = env4.insert(rc_ptr, Val::Ptr(refcount_address(elements, p)));
        let env6 = env5.insert(alignment, Val::Int(p));
        assert(values_of(seq![sym_elements], env4) == Some(seq![Val::Ptr(elements)])) by {
            assert(Seq::new(1, |i: int| env4[seq![sym_elements][i]]) =~= seq![Val::Ptr(elements)]);
        }
        match op {
            RefcountOp::Inc => {
                assert(values_of(seq![rc_ptr, Symbol::spec_arg_2()], env6) == Some(
                    seq![Val::Ptr(refcount_address(elements, p)), Val::Int(amount)],
                )) by {
                    assert(Seq::new(2, |i: int| env6[seq![rc_ptr, Symbol::spec_arg_2()][i]])
                        =~= seq![Val::Ptr(refcount_address(elements, p)), Val::Int(amount)]);
                }
            },
            _ => {
                assert(values_of(seq![rc_ptr, alignment], env6) == Some(
                    seq![Val::Ptr(refcount_address(elements, p)), Val::Int(p)],
                )) by {
                    assert(Seq::new(2, |i: int| env6[seq![rc_ptr, alignment][i]]) =~= seq![
                        Val::Ptr(refcount_address(elements, p)),
                        Val::Int(p),
                    ]);
                }
            },
        }
        let env7 = env6.insert(result, Val::Unit);
        let last = run(Stmt::Ret(result), env7, p, (steps - 8) as nat);
        assert(last.effects == Seq::<Effect>::empty() && last.end == End::Returned(Val::Unit));
        reveal_with_fuel(run, 9);
        let outcome = run(str_helper_body(home, ptr_size, layout_isize, base, op), env0, p, steps);
        assert(outcome.end == End::Returned(Val::Unit));
        assert(outcome.effects =~= seq![str_helper_effect(op, elements, amount, p)]);
    } else {
        assert(find_branch(branches, 0, 0) is None) by {
            reveal_with_fuel(find_branch, 3);
        }
        lemma_slices(unit, unit);
        reveal_with_fuel(run, 7);
        let outcome = run(str_helper_body(home, ptr_size, layout_isize, base, op), env0, p, steps);
        assert(outcome.end == End::Returned(Val::Unit));
        assert(outcome.effects =~= Seq::<Effect>::empty());
    }
}

/// The release of a last reference decrements the count in front of the
/// payload, once, and goes on with what follows.
///
/// The statements that stand for the release run on the value `payload` of
/// the name `structure`, a pointer to a payload. Their only effect is the
/// atomic decrement of the word in front of the payload. They call no
/// helper. Then the statement that follows runs, with two more names
/// bound.
pub proof fn lemma_decref_effects<'a>(
    structure: Symbol,
    rc_ptr: Symbol,
    call_result: Symbol,
    following: &'a Stmt<'a>,
    env: Map<Symbol, Val>,
    payload: int,
    ptr_size: int,
    steps: nat,
)
    requires
        env.contains_key(structure),
        env[structure] == Val::Ptr(payload),
    ensures
        ({
            let outcome = run(
                decref_call_site(structure, rc_ptr, call_result, following),
                env,
                ptr_size,
                steps + 2,
            );
            let rc = Val::Ptr(refcount_address(payload, ptr_size));
            let rest = run(
                *following,
                env.insert(rc_ptr, rc).insert(call_result, Val::Unit),
                ptr_size,
                steps,
            );
            &&& outcome.effects == seq![
                Effect::AtomicDec { rc_ptr: refcount_address(payload, ptr_size), alignment: None },
            ] + rest.effects
            &&& outcome.end == rest.end
        }),
{
    lemma_slices(structure, structure);
    lemma_slices(rc_ptr, rc_ptr);
    let rc = Val::Ptr(refcount_address(payload, ptr_size));
    let env1 = env.insert(rc_ptr, rc);
    assert(values_of(seq![structure], env) == Some(seq![Val::Ptr(payload)])) by {
        assert(Seq::new(1, |i: int| env[seq![structure][i]]) =~= seq![Val::Ptr(payload)]);
    }
    assert(values_of(seq![rc_ptr], env1) == Some(seq![rc])) by {
        assert(Seq::new(1, |i: int| env1[seq![rc_ptr][i]]) =~= seq![rc]);
    }
    let rest = run(*following, env1.insert(call_result, Val::Unit), ptr_size, steps);
    let dec = seq![
        Effect::AtomicDec { rc_ptr: refcount_address(payload, ptr_size), alignment: None },
    ];
    reveal_with_fuel(run, 3);
    let outcome = run(
        decref_call_site(structure, rc_ptr, call_result, following),
        env,
        ptr_size,
        steps + 2,
    );
    assert(outcome.effects =~= Seq::<Effect>::empty() + (dec + rest.effects));
    assert(Seq::<Effect>::empty() + (dec + rest.effects) =~= dec + rest.effects);
}

/// An increment at a call site calls the helper once, with the value and
/// the amount, and goes on with what follows.
pub proof fn lemma_inc_call_site_effects<'a>(
    layout: Layout<'a>,
    layout_isize: Layout<'a>,
    structure: Symbol,
    amount: u64,
    proc_name: Symbol,
    amount_sym: Symbol,
    call_result: Symbol,
    following: &'a Stmt<'a>,
    env: Map<Symbol, Val>,
    ptr_size: int,
    steps: nat,
)
    requires
        env.contains_key(structure),
        amount_sym != structure,
    ensures
        ({
            let outcome = run(
                inc_call_site(
                    layout,
                    layout_isize,
                    structure,
                    amount,
                    proc_name,
                    amount_sym,
                    call_result,
                    following,
                ),
                env,
                ptr_size,
                steps + 2,
            );
            let rest = run(
                *following,
                env.insert(amount_sym, Val::Int(amount as int)).insert(call_result, Val::Unit),
                ptr_size,
                steps,
            );
            &&& outcome.effects == seq![
                Effect::CallByName {
                    name: proc_name,
                    arguments: seq![env[structure], Val::Int(amount as int)],
                },
            ] + rest.effects
            &&& outcome.end == rest.end
        }),
{
    lemma_slices(structure, amount_sym);
    let env1 = env.insert(amount_sym, Val::Int(amount as int));
    let arguments = seq![env[structure], Val::Int(amount as int)];
    assert(values_of(seq![structure, amount_sym], env1) == Some(arguments)) by {
        assert(Seq::new(2, |i: int| env1[seq![structure, amount_sym][i]]) =~= arguments);
    }
    let rest = run(*following, env1.insert(call_result, Val::Unit), ptr_size, steps);
    let call = seq![Effect::CallByName { name: proc_name, arguments }];
    reveal_with_fuel(run, 3);
    let outcome = run(
        inc_call_site(
            layout,
            layout_isize,
            structure,
            amount,
            proc_name,
            amount_sym,
            call_result,
            following,
        ),
        env,
        ptr_size,
        steps + 2,
    );
    assert(outcome.effects =~= Seq::<Effect>::empty() + (call + rest.effects));
    assert(Seq::<Effect>::empty() + (call + rest.effects) =~= call + rest.effects);
}

/// A decrement at a call site calls the helper once, with the value alone,
/// and goes on with what follows.
pub proof fn lemma_dec_call_site_effects<'a>(
    layout: Layout<'a>,
    structure: Symbol,
    proc_name: Symbol,
    call_result: Symbol,
    following: &'a Stmt<'a>,
    env: Map<Symbol, Val>,
    ptr_size: int,
    steps: nat,
)
    requires
        env.contains_key(structure),
    ensures
        ({
            let outcome = run(
                dec_call_site(layout, structure, proc_name, call_result, following),
                env,
                ptr_size,
                steps + 1,
            );
            let rest = run(*following, env.insert(call_result, Val::Unit), ptr_size, steps);
            &&& outcome.effects == seq![
                Effect::CallByName { name: proc_name, arguments: seq![env[structure]] },
            ] + rest.effects
            &&& outcome.end == rest.end
        }),
{
    lemma_slices(structure, structure);
    let arguments = seq![env[structure]];
    assert(values_of(seq![structure], env) == Some(arguments)) by {
        assert(Seq::new(1, |i: int| env[seq![structure][i]]) =~= arguments);
    }
    reveal_with_fuel(run, 2);
}

} // verus!
