use std::collections::HashMap;

use tejx::mir::{BasicBlock, MIRFunction, MIRInstruction, MIRValue};
use tejx::mir_lowering::MIRLowering;
use tejx::types::TejxType;

fn var(name: &str, ty: TejxType) -> MIRValue {
    MIRValue::Variable { name: name.to_string(), ty }
}

fn fresh() -> MIRLowering {
    MIRLowering::new(HashMap::new(), HashMap::new())
}

#[test]
fn value_type_of_variable_and_constant() {
    assert_eq!(*var("x", TejxType::Int32).get_type(), TejxType::Int32);
    let c = MIRValue::Constant { value: "1.5".to_string(), ty: TejxType::Float64 };
    assert_eq!(*c.get_type(), TejxType::Float64);
}

#[test]
fn set_line_then_get_line() {
    let mut inst = MIRInstruction::Jump { target: 3, line: 7 };
    assert_eq!(inst.get_line(), 7);
    inst.set_line(12);
    assert_eq!(inst.get_line(), 12);
    assert_eq!(inst, MIRInstruction::Jump { target: 3, line: 12 });
    let mut pop = MIRInstruction::PopHandler { line: 0 };
    pop.set_line(5);
    assert_eq!(pop.get_line(), 5);
}

#[test]
fn block_terminates_only_on_return_jump_branch() {
    let mut b = BasicBlock::new("entry_0".to_string());
    assert!(!b.is_terminated());
    assert_eq!(b.exception_handler, None);
    b.add_instruction(MIRInstruction::Move { dst: "a".to_string(), src: var("b", TejxType::Bool), line: 1 });
    assert!(!b.is_terminated());
    b.add_instruction(MIRInstruction::Branch {
        condition: var("a", TejxType::Bool),
        true_target: 1,
        false_target: 2,
        line: 2,
    });
    assert!(b.is_terminated());
    b.add_instruction(MIRInstruction::Throw { value: var("e", TejxType::Any), line: 3 });
    assert!(!b.is_terminated());
    b.add_instruction(MIRInstruction::Return { value: None, line: 4 });
    assert!(b.is_terminated());
    assert_eq!(b.instructions.len(), 4);
    assert_eq!(b.name, "entry_0");
}

#[test]
fn new_function_is_empty() {
    let f = MIRFunction::new("main".to_string());
    assert_eq!(f.name, "main");
    assert!(f.params.is_empty());
    assert!(f.variables.is_empty());
    assert!(f.blocks.is_empty());
    assert_eq!(f.entry_block, 0);
    assert!(!f.is_extern);
}

#[test]
fn declare_numbers_names_below_the_outer_scope() {
    let mut l = fresh();
    assert_eq!(l.declare_variable("x"), "x");
    l.new_scope();
    assert_eq!(l.declare_variable("x"), "x_1");
    assert_eq!(l.declare_variable("y"), "y_2");
    assert_eq!(l.declare_variable("g_total"), "g_total");
    assert_eq!(l.declare_variable("a$3"), "a$3");
    assert_eq!(l.declare_variable("z"), "z_3");
}

#[test]
fn resolve_prefers_innermost_and_forgets_closed_scopes() {
    let mut l = fresh();
    l.new_scope();
    let outer = l.declare_variable("v");
    l.new_scope();
    let inner = l.declare_variable("v");
    assert_ne!(outer, inner);
    assert_eq!(l.resolve_variable("v"), inner);
    let mut dropped = l.pop_scope();
    dropped.sort();
    assert_eq!(dropped, vec![inner.clone()]);
    assert_eq!(l.resolve_variable("v"), outer);
    assert_eq!(l.resolve_variable("unknown"), "unknown");
}

#[test]
fn redeclaring_in_one_scope_replaces_the_entry() {
    let mut l = fresh();
    l.new_scope();
    let first = l.declare_variable("k");
    let second = l.declare_variable("k");
    assert_eq!(first, "k_0");
    assert_eq!(second, "k_1");
    assert_eq!(l.resolve_variable("k"), "k_1");
    assert_eq!(l.pop_scope(), vec!["k_1".to_string()]);
}

#[test]
fn temporaries_and_blocks_get_fresh_names() {
    let mut l = fresh();
    l.begin_function("f".to_string(), vec![], false);
    assert_eq!(l.new_temp(TejxType::Int32), "_t0");
    assert_eq!(l.new_temp(TejxType::Bool), "_t1");
    assert_eq!(l.new_async_temp(TejxType::Void), "_atmp2");
    assert_eq!(l.new_block("loop"), 1);
    assert_eq!(l.new_block("loop"), 2);
}

#[test]
fn begin_function_sets_up_parameters_and_entry() {
    let mut l = fresh();
    l.begin_function(
        "add".to_string(),
        vec![("a".to_string(), TejxType::Int32), ("b".to_string(), TejxType::Int32)],
        true,
    );
    assert_eq!(l.resolve_variable("a"), "a");
    assert_eq!(l.resolve_variable("b"), "b");
    assert_eq!(l.declare_variable("c"), "c");
}

#[test]
fn emit_stops_at_a_terminated_block() {
    let mut l = fresh();
    l.begin_function("f".to_string(), vec![], false);
    l.emit(MIRInstruction::Move { dst: "a".to_string(), src: var("b", TejxType::Int32), line: 99 });
    l.emit(MIRInstruction::Return { value: None, line: 99 });
    l.emit(MIRInstruction::Jump { target: 0, line: 99 });
    let t = l.new_temp(TejxType::Int32);
    assert_eq!(t, "_t0");
    let b = l.new_block("after");
    assert_eq!(b, 1);
}

#[test]
fn async_locals_take_parameters_then_sorted_variables() {
    let mut l = fresh();
    l.begin_function("w_worker".to_string(), vec![("ctx".to_string(), TejxType::Any)], false);
    assert_eq!(l.new_temp(TejxType::Int32), "_t0");
    assert_eq!(l.new_async_temp(TejxType::Void), "_atmp1");
    assert_eq!(l.new_temp(TejxType::Bool), "_t2");
    l.new_scope();
    assert_eq!(l.declare_variable("count"), "count_0");
    let aps = Some(vec![("count".to_string(), TejxType::Int32), ("zz".to_string(), TejxType::Bool)]);
    l.collect_async_locals(&aps, &[]);
    assert_eq!(l.async_locals, vec!["count_0".to_string(), "zz".to_string(), "_t0".to_string(), "_t2".to_string()]);
    l.collect_async_locals(&aps, &[]);
    assert_eq!(l.async_locals.len(), 4);
    l.collect_async_locals(&None, &[]);
    assert_eq!(l.async_locals.len(), 4);
}

#[test]
fn while_loop_blocks_and_jumps() {
    let mut l = fresh();
    l.begin_function("f".to_string(), vec![], false);
    let (header, body, latch, exit) = l.enter_loop(false);
    assert_eq!((header, body, latch, exit), (1, 2, 1, 3));
    l.branch_to(var("c", TejxType::Bool), body, exit);
    l.lower_continue();
    l.lower_break();
    l.jump_unless_terminated(latch);
    l.leave_loop(exit);
    let f = l.current();
    assert_eq!(f.blocks.len(), 4);
    assert_eq!(f.blocks[0].name, "entry_0");
    assert_eq!(f.blocks[1].name, "loop_header_1");
    assert_eq!(f.blocks[2].name, "loop_body_2");
    assert_eq!(f.blocks[3].name, "loop_exit_3");
    assert_eq!(f.blocks[0].instructions, vec![MIRInstruction::Jump { target: 1, line: 0 }]);
    assert_eq!(
        f.blocks[1].instructions,
        vec![MIRInstruction::Branch { condition: var("c", TejxType::Bool), true_target: 2, false_target: 3, line: 0 }]
    );
    assert_eq!(f.blocks[2].instructions, vec![MIRInstruction::Jump { target: 1, line: 0 }]);
    assert!(f.blocks[3].instructions.is_empty());
}

#[test]
fn for_loop_has_latch_and_break_goes_to_exit() {
    let mut l = fresh();
    l.begin_function("g".to_string(), vec![], false);
    let (header, body, latch, exit) = l.enter_loop(true);
    assert_eq!((header, body, latch, exit), (1, 2, 3, 4));
    l.branch_to(var("c", TejxType::Bool), body, exit);
    l.lower_break();
    l.jump_unless_terminated(latch);
    l.leave_loop(exit);
    let f = l.current();
    assert_eq!(f.blocks[3].name, "loop_latch_3");
    assert_eq!(f.blocks[2].instructions, vec![MIRInstruction::Jump { target: 4, line: 0 }]);
}

#[test]
fn break_outside_a_loop_does_nothing() {
    let mut l = fresh();
    l.begin_function("h".to_string(), vec![], false);
    l.lower_break();
    l.lower_continue();
    assert!(l.current().blocks[0].instructions.is_empty());
}

#[test]
fn if_else_joins_at_merge() {
    let mut l = fresh();
    l.begin_function("k".to_string(), vec![], false);
    let (then_block, else_block, merge_block) = l.enter_if();
    assert_eq!((then_block, else_block, merge_block), (1, 2, 3));
    l.branch_to(var("c", TejxType::Bool), then_block, else_block);
    l.jump_unless_terminated(merge_block);
    l.switch_to_block(else_block);
    l.emit(MIRInstruction::Return { value: None, line: 0 });
    l.jump_unless_terminated(merge_block);
    l.switch_to_block(merge_block);
    let f = l.current();
    assert_eq!(f.blocks[1].name, "if_then_1");
    assert_eq!(f.blocks[2].name, "if_else_2");
    assert_eq!(f.blocks[3].name, "if_merge_3");
    assert_eq!(
        f.blocks[0].instructions,
        vec![MIRInstruction::Branch { condition: var("c", TejxType::Bool), true_target: 1, false_target: 2, line: 0 }]
    );
    assert_eq!(f.blocks[1].instructions, vec![MIRInstruction::Jump { target: 3, line: 0 }]);
    assert_eq!(f.blocks[2].instructions, vec![MIRInstruction::Return { value: None, line: 0 }]);
}

#[test]
fn try_with_finally_sets_up_handlers() {
    let mut l = fresh();
    l.begin_function("t".to_string(), vec![], false);
    let (exit, unwinding, saved, finally_unwind, finally_body, catch, start) = l.enter_try(true);
    assert_eq!(exit, 1);
    assert_eq!(unwinding, "_t0");
    assert_eq!(saved, "_t1");
    assert_eq!(finally_unwind, Some(2));
    assert_eq!(finally_body, Some(3));
    assert_eq!((catch, start), (4, 5));
    let f = l.current();
    assert_eq!(f.blocks.len(), 6);
    assert_eq!(f.blocks[4].name, "catch_4");
    assert_eq!(f.blocks[4].exception_handler, Some(2));
    assert_eq!(f.blocks[5].name, "try_start_5");
    assert_eq!(f.blocks[5].exception_handler, Some(4));
    assert_eq!(f.blocks[0].instructions, vec![MIRInstruction::TrySetup { try_target: 5, _catch_target: 4, line: 0 }]);
    let next = l.new_block("inner");
    assert_eq!(l.current().blocks[next].exception_handler, Some(4));
}

#[test]
fn try_without_finally() {
    let mut l = fresh();
    l.begin_function("u".to_string(), vec![], false);
    let (exit, _, _, finally_unwind, finally_body, catch, start) = l.enter_try(false);
    assert_eq!((exit, catch, start), (1, 2, 3));
    assert_eq!(finally_unwind, None);
    assert_eq!(finally_body, None);
    assert_eq!(l.current().blocks[2].exception_handler, None);
}

#[test]
fn leaving_try_body_pops_handler_and_goes_to_finally() {
    let mut l = fresh();
    l.begin_function("v".to_string(), vec![], false);
    let (exit, unwinding, _, _, finally_body, _catch, start) = l.enter_try(true);
    l.leave_try_body(&unwinding, finally_body, exit);
    let f = l.current();
    assert_eq!(
        f.blocks[start].instructions,
        vec![
            MIRInstruction::PopHandler { line: 0 },
            MIRInstruction::Move {
                dst: "_t0".to_string(),
                src: MIRValue::Constant { value: "false".to_string(), ty: TejxType::Bool },
                line: 0,
            },
            MIRInstruction::Jump { target: 3, line: 0 },
        ]
    );
    let b = l.new_block("after");
    assert_eq!(l.current().blocks[b].exception_handler, None);
}

#[test]
fn leaving_try_body_without_finally_goes_to_exit() {
    let mut l = fresh();
    l.begin_function("w".to_string(), vec![], false);
    let (exit, unwinding, _, _, finally_body, _catch, start) = l.enter_try(false);
    l.leave_try_body(&unwinding, finally_body, exit);
    assert_eq!(
        l.current().blocks[start].instructions,
        vec![MIRInstruction::PopHandler { line: 0 }, MIRInstruction::Jump { target: 1, line: 0 }]
    );
}

#[test]
fn switch_inside_loop_keeps_continue_target() {
    let mut l = fresh();
    l.begin_function("s".to_string(), vec![], false);
    let (_header, body, latch, exit) = l.enter_loop(true);
    l.branch_to(var("c", TejxType::Bool), body, exit);
    let (switch_exit, check) = l.enter_switch();
    assert_eq!((switch_exit, check), (5, 6));
    l.switch_to_block(check);
    l.lower_continue();
    let f = l.current();
    assert_eq!(f.blocks[5].name, "switch_exit_5");
    assert_eq!(f.blocks[6].name, "case_check_6");
    assert_eq!(f.blocks[2].instructions, vec![MIRInstruction::Jump { target: 6, line: 0 }]);
    assert_eq!(f.blocks[6].instructions, vec![MIRInstruction::Jump { target: latch, line: 0 }]);
    l.switch_to_block(switch_exit);
    l.lower_break();
    assert_eq!(l.current().blocks[5].instructions, vec![MIRInstruction::Jump { target: 5, line: 0 }]);
}

#[test]
fn finally_end_rethrows_when_unwinding() {
    let mut l = fresh();
    l.begin_function("x".to_string(), vec![], false);
    let (exit, unwinding, saved, _, finally_body, _, _) = l.enter_try(true);
    l.switch_to_block(finally_body.unwrap());
    l.end_finally_body(&unwinding, &saved, exit);
    let f = l.current();
    assert_eq!(f.blocks.len(), 7);
    assert_eq!(f.blocks[6].name, "finally_rethrow_6");
    assert_eq!(
        f.blocks[3].instructions,
        vec![MIRInstruction::Branch {
            condition: MIRValue::Variable { name: "_t0".to_string(), ty: TejxType::Bool },
            true_target: 6,
            false_target: 1,
            line: 0,
        }]
    );
    assert_eq!(
        f.blocks[6].instructions,
        vec![MIRInstruction::Throw { value: MIRValue::Variable { name: "_t1".to_string(), ty: TejxType::Int64 }, line: 0 }]
    );
}

#[test]
fn finish_function_adds_missing_return() {
    let mut l = fresh();
    l.begin_function("main".to_string(), vec![("n".to_string(), TejxType::Int32)], false);
    let (then_block, else_block, merge_block) = l.enter_if();
    l.branch_to(var("n", TejxType::Int32), then_block, else_block);
    l.emit(MIRInstruction::Return { value: Some(var("n", TejxType::Int32)), line: 0 });
    l.switch_to_block(else_block);
    l.jump_unless_terminated(merge_block);
    l.switch_to_block(merge_block);
    let f = l.finish_function();
    assert_eq!(f.name, "main");
    assert_eq!(f.params, vec!["n".to_string()]);
    assert_eq!(f.entry_block, 0);
    assert_eq!(f.blocks.len(), 4);
    assert_eq!(f.blocks[1].instructions, vec![MIRInstruction::Return { value: Some(var("n", TejxType::Int32)), line: 0 }]);
    assert_eq!(f.blocks[3].instructions, vec![MIRInstruction::Return { value: None, line: 0 }]);
    assert!(l.current().blocks.is_empty());
}
