use bumpalo::Bump;
use layout_helpers::ir::{Call, CallType, Expr, Literal, LowLevel, ModifyRc, Proc, Stmt};
use layout_helpers::layout::{Builtin, IntWidth, Layout, LAYOUT_STR, LAYOUT_U64, LAYOUT_VOID};
use layout_helpers::refcount::{layout_debug_name, op_text, CodeGenHelp, RefcountOp, REFCOUNT_MAX};
use layout_helpers::symbol::{IdentIds, Symbol};

const STR: Layout<'static> = Layout::Builtin(Builtin::Str);
const I64: Layout<'static> = Layout::Builtin(Builtin::Int(IntWidth::I64));
const UNIT: Layout<'static> = Layout::Struct(&[]);
const PTR: Layout<'static> = Layout::RecursivePointer(LAYOUT_VOID);

/// What a value is while a helper runs.
#[derive(Clone, Copy, Debug, PartialEq)]
enum Val {
    Int(i128),
    Bool(bool),
    Ptr(i128),
    Str { elements: i128, len: i128 },
    Unit,
}

/// The atomic calls that a run has made.
#[derive(Debug, PartialEq)]
enum Atomic {
    Inc { rc_ptr: i128, amount: i128 },
    Dec { rc_ptr: i128, alignment: i128 },
}

fn lookup(env: &[(Symbol, Val)], name: Symbol) -> Val {
    env.iter().rev().find(|(s, _)| *s == name).expect("bound").1
}

fn run_expr(expr: &Expr, env: &[(Symbol, Val)], ptr_size: i128, calls: &mut Vec<Atomic>) -> Val {
    match *expr {
        Expr::Literal(Literal::Int(n)) => Val::Int(n),
        Expr::Struct(fields) => {
            assert!(fields.is_empty());
            Val::Unit
        }
        Expr::StructAtIndex { index, structure, .. } => match lookup(env, structure) {
            Val::Str { elements, len } => {
                if index == 0 {
                    Val::Ptr(elements)
                } else {
                    Val::Int(len)
                }
            }
            other => panic!("not a string: {:?}", other),
        },
        Expr::Call(Call { call_type: CallType::LowLevel { op }, arguments }) => {
            let args: Vec<Val> = arguments.iter().map(|a| lookup(env, *a)).collect();
            match (op, &args[..]) {
                (LowLevel::NumGte, [Val::Int(a), Val::Int(b)]) => Val::Bool(a >= b),
                (LowLevel::RefCountGetPtr, [Val::Ptr(p)]) => Val::Ptr(p - ptr_size),
                (LowLevel::RefCountInc, [Val::Ptr(p), Val::Int(n)]) => {
                    calls.push(Atomic::Inc { rc_ptr: *p, amount: *n });
                    Val::Unit
                }
                (LowLevel::RefCountDec, [Val::Ptr(p), Val::Int(a)]) => {
                    calls.push(Atomic::Dec { rc_ptr: *p, alignment: *a });
                    Val::Unit
                }
                other => panic!("cannot run {:?}", other),
            }
        }
        Expr::Call(_) => panic!("a helper for strings calls no procedure"),
    }
}

fn run_stmt(stmt: &Stmt, env: &mut Vec<(Symbol, Val)>, ptr_size: i128, calls: &mut Vec<Atomic>) -> Val {
    match *stmt {
        Stmt::Let(name, ref expr, _, next) => {
            let value = run_expr(expr, env, ptr_size, calls);
            env.push((name, value));
            run_stmt(next, env, ptr_size, calls)
        }
        Stmt::Switch { cond_symbol, branches, default_branch, .. } => {
            let number = match lookup(env, cond_symbol) {
                Val::Bool(b) => b as u64,
                other => panic!("cannot switch on {:?}", other),
            };
            match branches.iter().find(|(n, _)| *n == number) {
                Some((_, branch)) => run_stmt(branch, env, ptr_size, calls),
                None => run_stmt(default_branch, env, ptr_size, calls),
            }
        }
        Stmt::Ret(name) => lookup(env, name),
        Stmt::Foreign(_) => panic!("a helper ends with a return"),
    }
}

fn run_helper(proc: &Proc, string: Val, amount: i128, ptr_size: i128) -> (Val, Vec<Atomic>) {
    let mut env = vec![(Symbol::arg_1(), string), (Symbol::arg_2(), Val::Int(amount))];
    let mut calls = Vec::new();
    let result = run_stmt(&proc.body, &mut env, ptr_size, &mut calls);
    (result, calls)
}

#[test]
fn debug_names_of_shapes() {
    assert_eq!(layout_debug_name(&Layout::Builtin(Builtin::List(LAYOUT_U64))), "list");
    assert_eq!(layout_debug_name(&Layout::Builtin(Builtin::SetOf(LAYOUT_U64))), "set");
    assert_eq!(layout_debug_name(&Layout::Builtin(Builtin::Dict(LAYOUT_U64, LAYOUT_U64))), "dict");
    assert_eq!(layout_debug_name(&STR), "str");
    assert_eq!(layout_debug_name(&Layout::Struct(&[])), "struct");
    assert_eq!(layout_debug_name(&Layout::LambdaSet(LAYOUT_U64)), "lambdaset");
    assert_eq!(layout_debug_name(&Layout::Boxed(LAYOUT_U64)), "boxed");
    assert_eq!(layout_debug_name(&Layout::RecursivePointer(0)), "recursive_pointer");
}

#[test]
fn static_values_count_as_zero() {
    assert_eq!(REFCOUNT_MAX, 0);
}

#[test]
fn only_strings_are_supported() {
    assert!(CodeGenHelp::layout_is_supported(&STR));
    assert!(!CodeGenHelp::layout_is_supported(&I64));
    assert!(!CodeGenHelp::layout_is_supported(&Layout::Builtin(Builtin::List(LAYOUT_STR))));
    assert!(!CodeGenHelp::layout_is_supported(&Layout::Struct(&[LAYOUT_STR])));
    assert!(!CodeGenHelp::layout_is_supported(&Layout::Boxed(LAYOUT_STR)));
}

#[test]
fn increment_registers_helper_once() {
    let arena = Bump::new();
    let mut ids = IdentIds::new();
    let mut help = CodeGenHelp::new(&arena, IntWidth::I64, 7);
    let following = arena.alloc(Stmt::Foreign(1));
    let value = Symbol::new(7, 100);

    let (stmt, info) = help.expand_refcount_stmt(&mut ids, STR, &ModifyRc::Inc(value, 3), following);
    let helper = Symbol::new(7, 0);
    let (name, proc_layout) = info.expect("first request registers the helper");
    assert_eq!(name, helper);
    assert_eq!(proc_layout.arguments, &[STR, I64][..]);
    assert_eq!(proc_layout.result, UNIT);
    assert_eq!(ids.name(0), "#rcInc_str_0");
    assert_eq!(ids.name(1), "amount");
    assert_eq!(ids.name(2), "call_result_empty");
    assert_eq!(help.pending_len(), 1);

    match *stmt {
        Stmt::Let(amount_sym, Expr::Literal(Literal::Int(3)), layout, next) => {
            assert_eq!(amount_sym, Symbol::new(7, 1));
            assert_eq!(layout, I64);
            match *next {
                Stmt::Let(result, Expr::Call(call), result_layout, rest) => {
                    assert_eq!(result, Symbol::new(7, 2));
                    assert_eq!(result_layout, UNIT);
                    assert_eq!(call.arguments, &[value, amount_sym][..]);
                    assert_eq!(
                        call.call_type,
                        CallType::ByName { name: helper, ret_layout: UNIT, arg_layouts: &[STR, I64] }
                    );
                    assert_eq!(*rest, Stmt::Foreign(1));
                }
                _ => panic!("expected the call of the helper"),
            }
        }
        _ => panic!("expected the constant for the amount"),
    }

    // the second request finds the helper and registers nothing
    let (again_stmt, again) = help.expand_refcount_stmt(&mut ids, STR, &ModifyRc::Inc(value, 1), following);
    assert!(again.is_none());
    assert_eq!(help.pending_len(), 1);
    assert_eq!(ids.len(), 5);
    match *again_stmt {
        Stmt::Let(_, Expr::Literal(Literal::Int(1)), _, next) => match *next {
            Stmt::Let(_, Expr::Call(call), _, _) => {
                assert!(matches!(call.call_type, CallType::ByName { name, .. } if name == helper));
            }
            _ => panic!("expected the call of the helper"),
        },
        _ => panic!("expected the constant for the amount"),
    }
}

#[test]
fn decrement_calls_helper_with_the_value_alone() {
    let arena = Bump::new();
    let mut ids = IdentIds::new();
    let mut help = CodeGenHelp::new(&arena, IntWidth::I32, 3);
    let following = arena.alloc(Stmt::Foreign(4));
    let value = Symbol::new(3, 40);
    let (stmt, info) = help.expand_refcount_stmt(&mut ids, STR, &ModifyRc::Dec(value), following);
    let helper = Symbol::new(3, 0);
    let (name, proc_layout) = info.expect("first request registers the helper");
    assert_eq!(name, helper);
    // the recorded arguments are those of the call and of the helper
    assert_eq!(proc_layout.arguments, &[STR][..]);
    assert_eq!(proc_layout.result, UNIT);
    assert_eq!(ids.name(0), "#rcDec_str_0");
    assert_eq!(ids.name(1), "call_result_empty");
    assert_eq!(ids.len(), 2);
    assert_eq!(
        *stmt,
        Stmt::Let(
            Symbol::new(3, 1),
            Expr::Call(Call {
                call_type: CallType::ByName { name: helper, ret_layout: UNIT, arg_layouts: &[STR] },
                arguments: &[value],
            }),
            UNIT,
            &Stmt::Foreign(4),
        )
    );
}

#[test]
fn increment_and_decrement_have_helpers_of_their_own() {
    let arena = Bump::new();
    let mut ids = IdentIds::new();
    let mut help = CodeGenHelp::new(&arena, IntWidth::I64, 9);
    let following = arena.alloc(Stmt::Foreign(0));
    let value = Symbol::new(9, 77);
    let (_, inc) = help.expand_refcount_stmt(&mut ids, STR, &ModifyRc::Inc(value, 1), following);
    let (_, dec) = help.expand_refcount_stmt(&mut ids, STR, &ModifyRc::Dec(value), following);
    let (_, inc_again) = help.expand_refcount_stmt(&mut ids, STR, &ModifyRc::Inc(value, 2), following);
    let (_, dec_again) = help.expand_refcount_stmt(&mut ids, STR, &ModifyRc::Dec(value), following);
    let inc_name = inc.expect("registered").0;
    let dec_name = dec.expect("registered").0;
    assert_ne!(inc_name, dec_name);
    assert!(inc_again.is_none());
    assert!(dec_again.is_none());
    assert_eq!(help.pending_len(), 2);
    assert_eq!(ids.name(inc_name.ident_id), "#rcInc_str_0");
    assert_eq!(ids.name(dec_name.ident_id), "#rcDec_str_1");
}

#[test]
fn decref_needs_no_helper() {
    let arena = Bump::new();
    let mut ids = IdentIds::new();
    let mut help = CodeGenHelp::new(&arena, IntWidth::I32, 2);
    let following = arena.alloc(Stmt::Foreign(9));
    let value = Symbol::new(2, 5);
    let (stmt, info) = help.expand_refcount_stmt(&mut ids, STR, &ModifyRc::DecRef(value), following);
    assert!(info.is_none());
    assert_eq!(help.pending_len(), 0);
    assert_eq!(ids.name(0), "rc_ptr");
    assert_eq!(ids.name(1), "call_result_empty");
    let rc_ptr = Symbol::new(2, 0);
    assert_eq!(
        *stmt,
        Stmt::Let(
            rc_ptr,
            Expr::Call(Call {
                call_type: CallType::LowLevel { op: LowLevel::RefCountGetPtr },
                arguments: &[value],
            }),
            PTR,
            &Stmt::Let(
                Symbol::new(2, 1),
                Expr::Call(Call {
                    call_type: CallType::LowLevel { op: LowLevel::RefCountDec },
                    arguments: &[rc_ptr],
                }),
                UNIT,
                &Stmt::Foreign(9),
            ),
        )
    );
}

#[test]
fn unsupported_layout_is_passed_over() {
    let arena = Bump::new();
    let mut ids = IdentIds::new();
    let mut help = CodeGenHelp::new(&arena, IntWidth::I64, 1);
    let following = arena.alloc(Stmt::Foreign(3));
    let value = Symbol::new(1, 8);
    let list = Layout::Builtin(Builtin::List(LAYOUT_STR));
    for modify in [ModifyRc::Inc(value, 1), ModifyRc::Dec(value), ModifyRc::DecRef(value)] {
        let (stmt, info) = help.expand_refcount_stmt(&mut ids, list, &modify, following);
        assert!(std::ptr::eq(stmt, following));
        assert!(info.is_none());
    }
    assert_eq!(help.pending_len(), 0);
    assert_eq!(ids.len(), 0);
    let procs = help.generate_procs(&arena, &mut ids);
    assert_eq!(procs.len(), 0);
}

#[test]
fn struct_of_string_and_int_gets_no_helper() {
    // helpers are generated for strings only, so a struct that holds a
    // string is passed over: nothing is registered and nothing generated
    let arena = Bump::new();
    let mut ids = IdentIds::new();
    let mut help = CodeGenHelp::new(&arena, IntWidth::I64, 1);
    let following = arena.alloc(Stmt::Foreign(3));
    let record = Layout::Struct(&[LAYOUT_STR, LAYOUT_U64]);
    let (stmt, info) =
        help.expand_refcount_stmt(&mut ids, record, &ModifyRc::Dec(Symbol::new(1, 2)), following);
    assert!(std::ptr::eq(stmt, following));
    assert!(info.is_none());
    assert_eq!(help.pending_len(), 0);
    assert_eq!(help.generate_procs(&arena, &mut ids).len(), 0);
}

#[test]
fn helpers_are_generated_in_the_order_of_the_requests() {
    let arena = Bump::new();
    let mut ids = IdentIds::new();
    let mut help = CodeGenHelp::new(&arena, IntWidth::I64, 5);
    let following = arena.alloc(Stmt::Foreign(0));
    let value = Symbol::new(5, 1000);
    let (_, dec) = help.expand_refcount_stmt(&mut ids, STR, &ModifyRc::Dec(value), following);
    let (_, inc) = help.expand_refcount_stmt(&mut ids, STR, &ModifyRc::Inc(value, 1), following);
    let before = ids.len();
    let procs = help.generate_procs(&arena, &mut ids);
    assert_eq!(procs.len(), 2);
    assert_eq!(help.pending_len(), 0);
    let first = procs.get(0).expect("two procedures");
    let second = procs.get(1).expect("two procedures");
    assert!(procs.get(2).is_none());
    assert_eq!(first.name, dec.expect("registered").0);
    assert_eq!(second.name, inc.expect("registered").0);
    assert_eq!(first.args, &[(STR, Symbol::arg_1())][..]);
    assert_eq!(second.args, &[(STR, Symbol::arg_1()), (I64, Symbol::arg_2())][..]);
    for proc in procs.to_vec() {
        assert_eq!(proc.ret_layout, UNIT);
        assert_eq!(proc.closure_data_layout, None);
        assert!(!proc.is_self_recursive);
        assert!(!proc.must_own_arguments);
        assert!(!proc.is_host_exposed);
    }
    // each helper takes eight names
    assert_eq!(ids.len(), before + 16);
    let locals = ["len", "zero", "is_big_str", "elements", "rc_ptr", "alignment", "zig_call_result", "unit"];
    for (i, name) in locals.iter().enumerate() {
        assert_eq!(ids.name(before + i), *name);
        assert_eq!(ids.name(before + 8 + i), *name);
    }
    // nothing is left to generate
    assert_eq!(help.generate_procs(&arena, &mut ids).len(), 0);
}

#[test]
fn body_of_the_decrement_helper() {
    let arena = Bump::new();
    let mut ids = IdentIds::new();
    let mut help = CodeGenHelp::new(&arena, IntWidth::I64, 5);
    let following = arena.alloc(Stmt::Foreign(0));
    help.expand_refcount_stmt(&mut ids, STR, &ModifyRc::Dec(Symbol::new(5, 99)), following);
    let base = ids.len();
    let procs = help.generate_procs(&arena, &mut ids);
    let proc = procs.get(0).expect("one procedure");
    let local = |i: usize| Symbol::new(5, base + i);
    let string = Symbol::arg_1();
    let fields: &[Layout] = &[PTR, I64];
    match proc.body {
        Stmt::Let(len, Expr::StructAtIndex { index: 1, structure, field_layouts }, layout, next) => {
            assert_eq!((len, structure, layout), (local(0), string, I64));
            assert_eq!(field_layouts, fields);
            match *next {
                Stmt::Let(zero, Expr::Literal(Literal::Int(0)), I64, next) => {
                    assert_eq!(zero, local(1));
                    match *next {
                        Stmt::Let(is_big, Expr::Call(call), cond_layout, next) => {
                            assert_eq!(is_big, local(2));
                            assert_eq!(cond_layout, Layout::Builtin(Builtin::Bool));
                            assert_eq!(call.call_type, CallType::LowLevel { op: LowLevel::NumGte });
                            assert_eq!(call.arguments, &[local(0), local(1)][..]);
                            match *next {
                                Stmt::Switch { cond_symbol, branches, default_branch, ret_layout, .. } => {
                                    assert_eq!(cond_symbol, local(2));
                                    assert_eq!(ret_layout, UNIT);
                                    assert_eq!(branches.len(), 1);
                                    assert_eq!(branches[0].0, 1);
                                    assert_eq!(
                                        *default_branch,
                                        Stmt::Let(local(7), Expr::Struct(&[]), UNIT, &Stmt::Ret(local(7)))
                                    );
                                    let alignment = Stmt::Let(
                                        local(5),
                                        Expr::Literal(Literal::Int(8)),
                                        Layout::Builtin(Builtin::Int(IntWidth::U32)),
                                        &Stmt::Let(
                                            local(6),
                                            Expr::Call(Call {
                                                call_type: CallType::LowLevel { op: LowLevel::RefCountDec },
                                                arguments: &[local(4), local(5)],
                                            }),
                                            UNIT,
                                            &Stmt::Ret(local(6)),
                                        ),
                                    );
                                    let get_ptr = Stmt::Let(
                                        local(4),
                                        Expr::Call(Call {
                                            call_type: CallType::LowLevel { op: LowLevel::RefCountGetPtr },
                                            arguments: &[local(3)],
                                        }),
                                        PTR,
                                        &alignment,
                                    );
                                    assert_eq!(
                                        branches[0].1,
                                        Stmt::Let(
                                            local(3),
                                            Expr::StructAtIndex {
                                                index: 0,
                                                field_layouts: fields,
                                                structure: string
                                            },
                                            PTR,
                                            &get_ptr,
                                        )
                                    );
                                }
                                _ => panic!("expected the switch"),
                            }
                        }
                        _ => panic!("expected the comparison"),
                    }
                }
                _ => panic!("expected zero"),
            }
        }
        _ => panic!("expected the length"),
    }
}

#[test]
fn small_string_is_left_alone() {
    let arena = Bump::new();
    let mut ids = IdentIds::new();
    let mut help = CodeGenHelp::new(&arena, IntWidth::I64, 5);
    let following = arena.alloc(Stmt::Foreign(0));
    help.expand_refcount_stmt(&mut ids, STR, &ModifyRc::Dec(Symbol::new(5, 99)), following);
    help.expand_refcount_stmt(&mut ids, STR, &ModifyRc::Inc(Symbol::new(5, 99), 1), following);
    let procs = help.generate_procs(&arena, &mut ids);
    let dec = procs.get(0).expect("two procedures");
    let inc = procs.get(1).expect("two procedures");

    // the sign bit of the length is set: no atomic call
    let small = Val::Str { elements: 4096, len: -3 };
    assert_eq!(run_helper(&dec, small, 0, 8), (Val::Unit, vec![]));
    assert_eq!(run_helper(&inc, small, 2, 8), (Val::Unit, vec![]));
    let smallest = Val::Str { elements: 4096, len: i64::MIN as i128 };
    assert_eq!(run_helper(&dec, smallest, 0, 8), (Val::Unit, vec![]));

    // the sign bit is clear: exactly one atomic call, on the word in front
    // of the characters
    let big = Val::Str { elements: 4096, len: 20 };
    assert_eq!(run_helper(&dec, big, 0, 8), (Val::Unit, vec![Atomic::Dec { rc_ptr: 4088, alignment: 8 }]));
    assert_eq!(run_helper(&inc, big, 2, 8), (Val::Unit, vec![Atomic::Inc { rc_ptr: 4088, amount: 2 }]));
    let empty = Val::Str { elements: 4096, len: 0 };
    assert_eq!(run_helper(&dec, empty, 0, 8), (Val::Unit, vec![Atomic::Dec { rc_ptr: 4088, alignment: 8 }]));
}

#[test]
fn alignment_is_the_width_of_a_pointer() {
    let arena = Bump::new();
    let mut ids = IdentIds::new();
    let mut help = CodeGenHelp::new(&arena, IntWidth::I32, 5);
    let following = arena.alloc(Stmt::Foreign(0));
    help.expand_refcount_stmt(&mut ids, STR, &ModifyRc::Dec(Symbol::new(5, 99)), following);
    let procs = help.generate_procs(&arena, &mut ids);
    let dec = procs.get(0).expect("one procedure");
    let big = Val::Str { elements: 100, len: 1 };
    assert_eq!(run_helper(&dec, big, 0, 4), (Val::Unit, vec![Atomic::Dec { rc_ptr: 96, alignment: 4 }]));
    let _ = RefcountOp::DecRef;
}

#[test]
fn helper_numbers_are_written_in_decimal() {
    let arena = Bump::new();
    let mut ids = IdentIds::new();
    let mut help = CodeGenHelp::new(&arena, IntWidth::I64, 5);
    let following = arena.alloc(Stmt::Foreign(0));
    // two helpers at most are registered for strings, so the numbers stay
    // small; the identifiers in between do not count
    for _ in 0..12 {
        help.expand_refcount_stmt(&mut ids, STR, &ModifyRc::DecRef(Symbol::new(5, 99)), following);
    }
    let (_, inc) = help.expand_refcount_stmt(&mut ids, STR, &ModifyRc::Inc(Symbol::new(5, 99), 1), following);
    let (_, dec) = help.expand_refcount_stmt(&mut ids, STR, &ModifyRc::Dec(Symbol::new(5, 99)), following);
    assert_eq!(inc.expect("registered").0, Symbol::new(5, 24));
    assert_eq!(ids.name(24), "#rcInc_str_0");
    assert_eq!(dec.expect("registered").0, Symbol::new(5, 27));
    assert_eq!(ids.name(27), "#rcDec_str_1");
}

#[test]
fn nothing_is_registered_at_first() {
    let arena = Bump::new();
    let mut ids = IdentIds::new();
    let mut help = CodeGenHelp::new(&arena, IntWidth::I64, 5);
    assert_eq!(help.pending_len(), 0);
    assert_eq!(ids.len(), 0);
    let procs = help.generate_procs(&arena, &mut ids);
    assert_eq!(procs.len(), 0);
    assert!(procs.get(0).is_none());
    assert!(procs.to_vec().is_empty());
    assert_eq!(ids.len(), 0);
}

#[test]
fn identifiers_are_numbered_in_the_order_they_are_added() {
    let mut ids = IdentIds::new();
    assert_eq!(ids.add("first".to_owned()), 0);
    assert_eq!(ids.add("second".to_owned()), 1);
    assert_eq!(ids.add("first".to_owned()), 2);
    assert_eq!(ids.len(), 3);
    assert_eq!(ids.name(1), "second");
    assert_eq!(ids.name(2), "first");
    assert_eq!(Symbol::new(4, 2), Symbol { module_id: 4, ident_id: 2 });
    assert_eq!(Symbol::arg_1(), Symbol { module_id: 0, ident_id: 1 });
    assert_eq!(Symbol::arg_2(), Symbol { module_id: 0, ident_id: 2 });
}

#[test]
fn recorded_arguments_are_those_of_the_helper() {
    let arena = Bump::new();
    let mut ids = IdentIds::new();
    let mut help = CodeGenHelp::new(&arena, IntWidth::I64, 5);
    let following = arena.alloc(Stmt::Foreign(0));
    let value = Symbol::new(5, 1000);
    let (_, dec) = help.expand_refcount_stmt(&mut ids, STR, &ModifyRc::Dec(value), following);
    let (_, inc) = help.expand_refcount_stmt(&mut ids, STR, &ModifyRc::Inc(value, 1), following);
    let dec = dec.expect("registered").1;
    let inc = inc.expect("registered").1;
    let procs = help.generate_procs(&arena, &mut ids).to_vec();
    let dec_layouts: Vec<Layout> = procs[0].args.iter().map(|(layout, _)| *layout).collect();
    let inc_layouts: Vec<Layout> = procs[1].args.iter().map(|(layout, _)| *layout).collect();
    assert_eq!(dec.arguments, &dec_layouts[..]);
    assert_eq!(inc.arguments, &inc_layouts[..]);
    assert_eq!(dec.arguments.len(), 1);
    assert_eq!(inc.arguments.len(), 2);
    assert_eq!(dec.result, procs[0].ret_layout);
    assert_eq!(inc.result, procs[1].ret_layout);
}

#[test]
fn operations_by_their_names() {
    assert_eq!(op_text(RefcountOp::Inc), "Inc");
    assert_eq!(op_text(RefcountOp::Dec), "Dec");
    assert_eq!(op_text(RefcountOp::DecRef), "DecRef");
}

#[test]
fn a_helper_for_strings_on_its_own() {
    let arena = Bump::new();
    let mut ids = IdentIds::new();
    let help = CodeGenHelp::new(&arena, IntWidth::I64, 5);
    let name = Symbol::new(5, 400);
    let dec = help.gen_modify_str(&mut ids, RefcountOp::Dec, name);
    assert_eq!(dec.name, name);
    assert_eq!(ids.len(), 8);
    assert_eq!(run_helper(&dec, Val::Str { elements: 64, len: -1 }, 0, 8), (Val::Unit, vec![]));
    assert_eq!(
        run_helper(&dec, Val::Str { elements: 64, len: 1 }, 0, 8),
        (Val::Unit, vec![Atomic::Dec { rc_ptr: 56, alignment: 8 }])
    );
    // the release of a last reference is written as a decrement
    let decref = help.gen_modify_str(&mut ids, RefcountOp::DecRef, name);
    assert_eq!(
        run_helper(&decref, Val::Str { elements: 64, len: 1 }, 0, 8),
        (Val::Unit, vec![Atomic::Dec { rc_ptr: 56, alignment: 8 }])
    );
}

#[test]
fn no_two_helpers_share_a_name() {
    let arena = Bump::new();
    let mut ids = IdentIds::new();
    let mut help = CodeGenHelp::new(&arena, IntWidth::I64, 5);
    let following = arena.alloc(Stmt::Foreign(0));
    let value = Symbol::new(5, 1000);
    for _ in 0..3 {
        help.expand_refcount_stmt(&mut ids, STR, &ModifyRc::Dec(value), following);
        help.expand_refcount_stmt(&mut ids, STR, &ModifyRc::DecRef(value), following);
        help.expand_refcount_stmt(&mut ids, STR, &ModifyRc::Inc(value, 2), following);
    }
    let procs = help.generate_procs(&arena, &mut ids).to_vec();
    assert_eq!(procs.len(), 2);
    assert_ne!(procs[0].name, procs[1].name);
}
