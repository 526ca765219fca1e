use forth_core::dictionary::DefineItem;
use forth_core::error::ForthError;
use forth_core::interpreter::{CoreState, ForthCore, Vocabulary};
use forth_core::output::Output;
use forth_core::primv::Primv;
use forth_core::semantics::{BodyStatus, RunStatus, StepStatus};
use forth_core::word::{WordFunc, WordType};

const FUEL: u64 = 10_000;

fn render(out: &[Output]) -> String {
    let mut s = String::new();
    for o in out {
        match o {
            Output::Number(n) => s.push_str(&format!("{} ", n)),
            Output::Char(b) => s.push(*b as char),
            Output::DefiningConst => s.push_str("define a const "),
            Output::DefiningWord => s.push_str("define a new word "),
            Output::UnknownWord(t) => s.push_str(&format!("Unknown word: {}\n", t)),
            Output::NotFound(t) => s.push_str(&format!("{} not found\n", t)),
            Output::WordList(_) => s.push_str("<words>"),
            Output::CoreDump(_) => s.push_str("<core>"),
        }
    }
    s
}

fn run(input: &str) -> (ForthCore, Result<RunStatus, ForthError>, String) {
    let mut core = ForthCore::new();
    let r = core.interpret2(input, FUEL);
    let out = core.take_output();
    (core, r, render(&out))
}

#[test]
fn multiply_and_print() {
    let (core, r, out) = run("3 2 * .");
    assert!(matches!(r, Ok(RunStatus::Idle)));
    assert_eq!(out, "6 ");
    assert!(core.stack_values().is_empty());
}

#[test]
fn demo_line_stops_on_empty_stack() {
    // The body of `3x` is entered one cell late, so `*` finds only the 4.
    let (_, r, out) = run("3 2 * . : 3x 3 * ; 4 3x . cr");
    assert!(matches!(r, Err(ForthError::StackEmpty)));
    assert_eq!(out, "6 define a new word ");
}

#[test]
fn swap_leaves_order() {
    let (_, r, out) = run("1 2 swap . .");
    assert!(matches!(r, Ok(RunStatus::Idle)));
    assert_eq!(out, "2 1 ");
}

#[test]
fn colon_definition_skips_first_cell() {
    let (core, r, out) = run(": sq dup * ; 3 3 sq .");
    assert!(matches!(r, Ok(RunStatus::Idle)));
    assert_eq!(out, "define a new word 9 ");
    assert!(core.stack_values().is_empty());
    assert_eq!(
        core.dictionary().code_space(),
        vec![DefineItem::Func(WordFunc::Dup), DefineItem::Func(WordFunc::Mul), DefineItem::Func(WordFunc::Exit)]
    );
}

#[test]
fn variable_fetch_after_store() {
    let (_, r, out) = run("var x var y 7 x ! x @ .");
    assert!(matches!(r, Ok(RunStatus::Idle)));
    assert_eq!(out, "define a const define a const 7 ");
}

#[test]
fn constant_reads_following_cell() {
    let (_, r, out) = run("5 const five 6 const six five .");
    assert!(matches!(r, Ok(RunStatus::Idle)));
    assert_eq!(out, "define a const define a const 6 ");
    let (_, r, _) = run("5 const five five");
    assert!(matches!(r, Err(ForthError::BadAddress)));
}

#[test]
fn if_then_branches() {
    let (core, r, out) = run(": t 99 if 11 . then ; 5 t 0 t");
    assert!(matches!(r, Ok(RunStatus::Idle)));
    assert_eq!(out, "define a new word 11 ");
    assert!(core.stack_values().is_empty());
}

#[test]
fn if_else_then_branches() {
    let (_, r, out) = run(": e 99 if 1 . else 2 . then ; 5 e 0 e");
    assert!(matches!(r, Ok(RunStatus::Idle)));
    assert_eq!(out, "define a new word 1 2 ");
}

#[test]
fn if_then_patches_placeholder() {
    let (core, r, _) = run(": t if then ;");
    assert!(matches!(r, Ok(RunStatus::Idle)));
    assert_eq!(
        core.dictionary().code_space(),
        vec![DefineItem::Func(WordFunc::IfRuntime), DefineItem::Lit(2), DefineItem::Func(WordFunc::Exit)]
    );
    assert!(core.stack_values().is_empty());
}

#[test]
fn nested_call_returns_through_exit() {
    let (core, r, out) = run(": d dup ; : q 1 d ; 7 q . .");
    assert!(matches!(r, Ok(RunStatus::Idle)));
    assert_eq!(out, "define a new word define a new word 7 7 ");
    assert!(core.stack_values().is_empty());
}

#[test]
fn nested_call_of_literal_fails() {
    let (_, r, _) = run(": one 1 ; : two 5 one ; two");
    assert!(matches!(r, Err(ForthError::NotALiteral)));
}

#[test]
fn return_stack_moves() {
    let (_, r, out) = run("5 >R R@ .");
    assert!(matches!(r, Ok(RunStatus::Idle)));
    assert_eq!(out, "5 ");
    let (_, r, _) = run("R@");
    assert!(matches!(r, Err(ForthError::ReturnStackEmpty)));
}

#[test]
fn emit_and_cr() {
    let (_, r, out) = run("65 emit 321 emit cr");
    assert!(matches!(r, Ok(RunStatus::Idle)));
    assert_eq!(out, "AA\n");
}

#[test]
fn arithmetic_results() {
    let (_, r, out) = run("-7 2 / . 2 3 4 */ . 3 3 = . 3 4 = . -6 -4 * .");
    assert!(matches!(r, Ok(RunStatus::Idle)));
    assert_eq!(out, "-3 1 1 0 24 ");
}

#[test]
fn each_fault() {
    assert!(matches!(run(".").1, Err(ForthError::StackEmpty)));
    assert!(matches!(run("1 0 /").1, Err(ForthError::DivideByZero)));
    assert!(matches!(run("1 2 0 */").1, Err(ForthError::DivideByZero)));
    assert!(matches!(run("2147483647 2 *").1, Err(ForthError::Overflow)));
    assert!(matches!(run("-2147483648 -1 /").1, Err(ForthError::Overflow)));
    assert!(matches!(run("100 @").1, Err(ForthError::BadAddress)));
    assert!(matches!(run("-1 @").1, Err(ForthError::BadAddress)));
    assert!(matches!(run(": w dup ; 0 @").1, Err(ForthError::NotALiteral)));
    assert!(matches!(run("var v : w v ;").1, Err(ForthError::WrongWordType)));
    match run(": w zzz ;").1 {
        Err(ForthError::UndefinedInDefinition(t)) => assert_eq!(t, "zzz"),
        _ => panic!("expected a fault"),
    }
    let mut core = ForthCore::new();
    assert!(matches!(core.do_immediate(), Err(ForthError::NoLastWord)));
}

#[test]
fn output_kept_before_fault() {
    let (_, r, out) = run("1 2 . . .");
    assert!(matches!(r, Err(ForthError::StackEmpty)));
    assert_eq!(out, "2 1 ");
}

#[test]
fn unknown_words_and_numbers() {
    let (core, r, out) = run("foo +5 -0 . 2147483648 12x");
    assert!(matches!(r, Ok(RunStatus::Idle)));
    assert_eq!(out, "Unknown word: foo\n0 Unknown word: 2147483648\nUnknown word: 12x\n");
    assert_eq!(core.stack_values(), vec![5]);
}

#[test]
fn name_on_next_line() {
    let mut core = ForthCore::new();
    assert!(matches!(core.interpret2(":", FUEL), Ok(RunStatus::NeedName)));
    assert!(matches!(core.interpret2("", FUEL), Ok(RunStatus::NeedName)));
    assert!(matches!(core.interpret2("sq dup * ; 4 4 sq .", FUEL), Ok(RunStatus::Idle)));
    assert_eq!(render(&core.take_output()), "define a new word 16 ");
}

#[test]
fn interpret_in_parts() {
    let mut core = ForthCore::new();
    assert!(matches!(core.interpret2("1 2 . 3", 2), Ok(RunStatus::OutOfFuel)));
    assert_eq!(core.stack_values(), vec![1, 2]);
    assert!(matches!(core.interpret(10), Ok(RunStatus::Idle)));
    assert_eq!(core.stack_values(), vec![1, 3]);
    assert!(matches!(core.interpret(10), Ok(RunStatus::Idle)));
    let mut whole = ForthCore::new();
    assert!(matches!(whole.interpret2("1 2 . 3", 4), Ok(RunStatus::OutOfFuel)));
    assert_eq!(whole.stack_values(), vec![1, 3]);
    assert_eq!(render(&core.take_output()), render(&whole.take_output()));
}

#[test]
fn output_accumulates() {
    let mut core = ForthCore::new();
    assert!(matches!(core.interpret2("1 .", FUEL), Ok(RunStatus::Idle)));
    assert!(matches!(core.interpret2("2 .", FUEL), Ok(RunStatus::Idle)));
    assert_eq!(render(&core.take_output()), "1 2 ");
    assert!(core.take_output().is_empty());
}

#[test]
fn words_lists_primitives() {
    let (_, r, _) = run("words");
    assert!(matches!(r, Ok(RunStatus::Idle)));
    let mut core = ForthCore::new();
    core.interpret2("words", FUEL).unwrap();
    let out = core.take_output();
    match &out[0] {
        Output::WordList(ws) => {
            assert_eq!(ws.len(), 28);
            let mut names: Vec<&str> = ws.iter().map(|w| w.name.as_str()).collect();
            names.sort();
            names.dedup();
            assert_eq!(names.len(), 28);
        },
        _ => panic!("expected a word list"),
    }
}

#[test]
fn core_shows_state() {
    let mut core = ForthCore::new();
    core.interpret2("1 core 2", FUEL).unwrap();
    let out = core.take_output();
    match &out[0] {
        Output::CoreDump(snap) => {
            assert_eq!(snap.stack, vec![1]);
            assert_eq!(snap.state, CoreState::Normal);
            assert_eq!(snap.text, vec!["2".to_string()]);
            assert_eq!(snap.ip, 1000);
            assert!(snap.defines.is_empty());
            assert!(snap.last_word.is_none());
        },
        _ => panic!("expected a dump"),
    }
}

#[test]
fn new_core_has_primitives() {
    let core = ForthCore::new();
    assert!(core.stack_values().is_empty());
    let d = core.dictionary();
    let dup = d.find("dup").unwrap();
    assert_eq!(dup.func, WordFunc::Dup);
    assert_eq!(dup.wtype, WordType::Primv);
    assert_eq!(dup.define_ptr, 999);
    assert!(d.find(";").unwrap().immediate);
    assert_eq!(d.find("endif").unwrap().func, WordFunc::Then);
    assert!(d.find("drop").is_none());
}

#[test]
fn create_then_run_empty_body() {
    let (_, r, _) = run("create foo foo");
    assert!(matches!(r, Err(ForthError::BadAddress)));
}

#[test]
fn exit_and_semicolon_at_top() {
    let (core, r, out) = run("exit ; 1 .");
    assert!(matches!(r, Ok(RunStatus::Idle)));
    assert_eq!(out, "1 ");
    assert_eq!(core.dictionary().code_space(), vec![DefineItem::Func(WordFunc::Exit)]);
}

#[test]
fn step_by_step() {
    let mut core = ForthCore::new();
    assert_eq!(core.load_line(" a b  c "), 3);
    assert_eq!(core.load_line("7"), 1);
    assert!(matches!(core.step(), Ok(StepStatus::Progress)));
    assert!(matches!(core.step(), Ok(StepStatus::Idle)));
    assert_eq!(core.stack_values(), vec![7]);
}

#[test]
fn primitives_called_directly() {
    let mut core = ForthCore::new();
    core.push(2);
    core.dup().unwrap();
    core.mul().unwrap();
    core.push(3);
    core.swap().unwrap();
    core.div().unwrap();
    assert_eq!(core.stack_values(), vec![1]);
    core.eval();
    core.cr().unwrap();
    core.disp().unwrap();
    assert_eq!(render(&core.take_output()), "\n1 ");
    assert!(matches!(core.eq(), Err(ForthError::StackEmpty)));
    core.push(9);
    assert_eq!(core.pop(), 9);
    assert!(matches!(core.do_colon(5), Err(ForthError::BadAddress)));
}

#[test]
fn define_word_directly_waits_for_name() {
    let mut core = ForthCore::new();
    core.define_word().unwrap();
    assert!(matches!(core.interpret(5), Ok(RunStatus::NeedName)));
    assert!(matches!(core.interpret2("w ;", FUEL), Ok(RunStatus::Idle)));
    assert!(core.dictionary().find("w").is_some());
}

#[test]
fn numbers_pushed_in_order() {
    let (core, r, out) = run(" 1 -2\t+3 ");
    assert!(matches!(r, Ok(RunStatus::Idle)));
    assert_eq!(out, "");
    assert_eq!(core.stack_values(), vec![1, -2, 3]);
}

#[test]
fn two_lines_as_one() {
    let mut apart = ForthCore::new();
    assert!(matches!(apart.interpret2(": sq dup * ; 3", FUEL), Ok(RunStatus::Idle)));
    assert!(matches!(apart.interpret2("3 sq .", FUEL), Ok(RunStatus::Idle)));
    let mut joined = ForthCore::new();
    assert!(matches!(joined.interpret2(": sq dup * ; 3 3 sq .", FUEL), Ok(RunStatus::Idle)));
    assert_eq!(apart.stack_values(), joined.stack_values());
    assert_eq!(render(&apart.take_output()), render(&joined.take_output()));
    assert!(matches!(apart.interpret2("   ", FUEL), Ok(RunStatus::Idle)));
    assert!(apart.take_output().is_empty());
    assert!(apart.stack_values().is_empty());
}

#[test]
fn do_colon_runs_body_to_exit() {
    let mut core = ForthCore::new();
    // `0 >R exit` leaves the instruction pointer at the body's first cell.
    assert!(matches!(core.interpret2(": w 5 ; 0 >R exit", FUEL), Ok(RunStatus::Idle)));
    assert!(matches!(core.do_colon(100), Ok(BodyStatus::Ended)));
    assert_eq!(core.stack_values(), vec![5]);
    match &core.take_output()[..] {
        [Output::DefiningWord] => {},
        _ => panic!("unexpected output"),
    }
}

#[test]
fn do_colon_runs_branches() {
    // `: t 1 if 2 then ;` compiles `_if` at cell 2, its target (6) at 3,
    // `_lit 2` at 4 and 5, and `exit` at 6; `2 >R exit` enters at cell 2.
    let mut taken = ForthCore::new();
    assert!(matches!(taken.interpret2(": t 1 if 2 then ; 5 2 >R exit", FUEL), Ok(RunStatus::Idle)));
    assert!(matches!(taken.do_colon(100), Ok(BodyStatus::Ended)));
    assert_eq!(taken.stack_values(), vec![2]);
    let mut skipped = ForthCore::new();
    assert!(matches!(skipped.interpret2(": t 1 if 2 then ; 0 2 >R exit", FUEL), Ok(RunStatus::Idle)));
    assert!(matches!(skipped.do_colon(100), Ok(BodyStatus::Ended)));
    assert!(skipped.stack_values().is_empty());
    let mut budget = ForthCore::new();
    assert!(matches!(budget.interpret2(": t 1 if 2 then ; 5 2 >R exit", FUEL), Ok(RunStatus::Idle)));
    assert!(matches!(budget.do_colon(1), Ok(BodyStatus::OutOfFuel)));
    assert!(matches!(budget.interpret(100), Ok(RunStatus::Idle)));
    assert_eq!(budget.stack_values(), vec![2]);
}

#[test]
fn number_edges() {
    let (core, r, out) = run("-2147483648 2147483647 007 + - -x 1_0 -2147483649");
    assert!(matches!(r, Ok(RunStatus::Idle)));
    assert_eq!(core.stack_values(), vec![i32::MIN, i32::MAX, 7]);
    assert_eq!(
        out,
        "Unknown word: +\nUnknown word: -\nUnknown word: -x\nUnknown word: 1_0\nUnknown word: -2147483649\n"
    );
}
