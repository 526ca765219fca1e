//! The meaning of the interpreter: its state as mathematical values, and
//! what each step of interpretation does to it.
use vstd::prelude::*;

use crate::dictionary::{compiled_item, created_word, find_pos, insert_word, lookup, DefineItem, DictView};
use crate::error::{AbortView, ForthError};
use crate::interpreter::CoreState;
use crate::output::{OutputView, SnapshotView};
use crate::text::{parse_i32_spec, split_ws};
use crate::word::{WordFunc, WordType, WordView};

verus! {

/// What a definition waiting for its name will complete.
#[derive(Clone, Copy, Debug, PartialEq, Eq, Structural)]
pub enum NameFor {
    /// `:`: a colon definition.
    Word,
    /// `create`: a bare entry.
    Create,
    /// `const`: a constant, whose value is taken from the stack.
    Const,
    /// `var`: a variable.
    Var,
}

/// Where control goes once a behaviour has finished.
#[derive(Clone, Copy, Debug, PartialEq, Eq, Structural)]
pub enum Resume {
    /// Back to the next token of the text.
    Top,
    /// On to the next cell of the code space.
    Next,
    /// On at the current cell of the code space.
    Here,
}

/// What one step of interpretation did.
#[derive(Clone, Copy, Debug, PartialEq, Eq, Structural)]
pub enum StepStatus {
    /// It did some work.
    Progress,
    /// Nothing was left to do: the text is used up.
    Idle,
    /// A definition waits for its name and the text is used up.
    NeedName,
}

/// How a run of interpretation ended.
#[derive(Clone, Copy, Debug, PartialEq, Eq, Structural)]
pub enum RunStatus {
    /// The text is used up and nothing is left to do.
    Idle,
    /// A definition waits for its name and the text is used up.
    NeedName,
    /// The step budget ran out with work left to do.
    OutOfFuel,
}

/// How running a colon definition's body ended.
#[derive(Clone, Copy, Debug, PartialEq, Eq, Structural)]
pub enum BodyStatus {
    /// The body ran to its `exit`.
    Ended,
    /// A definition in the body waits for its name and the text is used up.
    NeedName,
    /// The step budget ran out with the body still running.
    OutOfFuel,
}

/// The state of the interpreter as mathematical values.
pub struct CoreView {
    /// The data stack, top last.
    pub stack: Seq<i32>,
    /// The dictionary and its code space.
    pub dict: DictView,
    /// Interpreting or compiling.
    pub state: CoreState,
    /// The return stack, top last.
    pub return_stack: Seq<usize>,
    /// The tokens not yet read, the next one last.
    pub text: Seq<Seq<char>>,
    /// The instruction pointer into the code space.
    pub ip: usize,
    /// One entry for each colon definition being run, innermost last: where
    /// control goes when it ends.
    pub frames: Seq<Resume>,
    /// A definition that waits for its name, and where control goes after it.
    pub awaiting: Option<(NameFor, Resume)>,
    /// What has been given to the user to see.
    pub output: Seq<OutputView>,
}

/// The state after some work, and the fault that stopped it, if one did.
pub struct Outcome {
    pub core: CoreView,
    pub error: Option<AbortView>,
}

/// `r` and the state `after` are what the outcome `o` gives.
pub open spec fn outcome_matches<T>(r: Result<T, ForthError>, after: CoreView, o: Outcome) -> bool {
    &&& after == o.core
    &&& match r {
        Ok(_) => o.error is None,
        Err(e) => o.error == Some(e@),
    }
}

/// `r`, the state `after` and the status are what `o` and `st` give.
pub open spec fn status_matches<T>(r: Result<T, ForthError>, after: CoreView, o: Outcome, st: T) -> bool {
    &&& outcome_matches(r, after, o)
    &&& (r matches Ok(x) ==> x == st)
}

/// `s`, reached without a fault.
pub open spec fn ok(s: CoreView) -> Outcome {
    Outcome { core: s, error: None }
}

/// `s`, reached by the fault `e`.
pub open spec fn fail(s: CoreView, e: AbortView) -> Outcome {
    Outcome { core: s, error: Some(e) }
}

/// `s` with the data stack `st`.
pub open spec fn with_stack(s: CoreView, st: Seq<i32>) -> CoreView {
    CoreView { stack: st, ..s }
}

/// `s` with `o` given to the user.
pub open spec fn with_output(s: CoreView, o: OutputView) -> CoreView {
    CoreView { output: s.output.push(o), ..s }
}

/// `s` with the code space `d`.
pub open spec fn with_defines(s: CoreView, d: Seq<DefineItem>) -> CoreView {
    CoreView { dict: DictView { defines: d, ..s.dict }, ..s }
}

/// `s` with the instruction pointer `ip`.
pub open spec fn with_ip(s: CoreView, ip: usize) -> CoreView {
    CoreView { ip: ip, ..s }
}

/// The literal at `pos` of the code space, or why there is none.
pub open spec fn lit_at(s: CoreView, pos: int) -> Result<i32, AbortView> {
    if pos < 0 || pos >= s.dict.defines.len() {
        Err(AbortView::BadAddress)
    } else {
        match s.dict.defines[pos] {
            DefineItem::Lit(n) => Ok(n),
            _ => Err(AbortView::NotALiteral),
        }
    }
}

/// Truncating division, as Rust's `/` on integers.
pub open spec fn div_trunc(a: int, b: int) -> int {
    if a >= 0 && b > 0 {
        a / b
    } else if a < 0 && b < 0 {
        (-a) / (-b)
    } else if a < 0 && b > 0 {
        -((-a) / b)
    } else if a >= 0 && b < 0 {
        -(a / (-b))
    } else {
        0
    }
}

/// Whether `v` is a value of `i32`.
pub open spec fn in_i32(v: int) -> bool {
    i32::MIN <= v <= i32::MAX
}

/// What the `core` word shows of `s`.
pub open spec fn snapshot(s: CoreView) -> SnapshotView {
    SnapshotView {
        stack: s.stack,
        defines: s.dict.defines,
        last_word: s.dict.last_word,
        state: s.state,
        return_stack: s.return_stack,
        text: s.text,
        ip: s.ip,
    }
}

/// Compiling a reference to the word named `name`: its call is appended to
/// the code space; where there is no such word the user is told so; a
/// constant or a variable cannot be compiled.
pub open spec fn compile_spec(s: CoreView, name: Seq<char>) -> Outcome {
    match lookup(s.dict.words, name) {
        None => ok(with_output(s, OutputView::NotFound(name))),
        Some(w) => match compiled_item(w) {
            Some(item) => ok(with_defines(s, s.dict.defines.push(item))),
            None => fail(s, AbortView::WrongWordType),
        },
    }
}

/// `exit`: control returns to the address on top of the return stack, if
/// there is one.
pub open spec fn exit_spec(s: CoreView) -> CoreView {
    if s.return_stack.len() > 0 {
        CoreView { ip: s.return_stack.last(), return_stack: s.return_stack.drop_last(), ..s }
    } else {
        s
    }
}

/// The behaviours that neither wait for a name nor run a colon definition.
pub open spec fn func_spec(s: CoreView, f: WordFunc) -> Outcome {
    let st = s.stack;
    let n = st.len();
    let d = s.dict.defines;
    match f {
        WordFunc::Swap => if n < 2 {
            fail(with_stack(s, Seq::empty()), AbortView::StackEmpty)
        } else {
            ok(s)
        },
        WordFunc::Disp => if n < 1 {
            fail(s, AbortView::StackEmpty)
        } else {
            ok(with_output(with_stack(s, st.drop_last()), OutputView::Number(st.last())))
        },
        WordFunc::Mul => if n < 2 {
            fail(with_stack(s, Seq::empty()), AbortView::StackEmpty)
        } else {
            let p = st[n - 1] * st[n - 2];
            if in_i32(p) {
                ok(with_stack(s, st.take(n - 2).push(p as i32)))
            } else {
                fail(with_stack(s, st.take(n - 2)), AbortView::Overflow)
            }
        },
        WordFunc::Div => if n < 2 {
            fail(with_stack(s, Seq::empty()), AbortView::StackEmpty)
        } else {
            let x = st[n - 1];
            let y = st[n - 2];
            if x == 0 {
                fail(with_stack(s, st.take(n - 2)), AbortView::DivideByZero)
            } else if !in_i32(div_trunc(y as int, x as int)) {
                fail(with_stack(s, st.take(n - 2)), AbortView::Overflow)
            } else {
                ok(with_stack(s, st.take(n - 2).push(div_trunc(y as int, x as int) as i32)))
            }
        },
        WordFunc::MulDiv => if n < 3 {
            fail(with_stack(s, Seq::empty()), AbortView::StackEmpty)
        } else {
            let x = st[n - 1];
            let p = st[n - 3] * st[n - 2];
            if !in_i32(p) {
                fail(with_stack(s, st.take(n - 3)), AbortView::Overflow)
            } else if x == 0 {
                fail(with_stack(s, st.take(n - 3)), AbortView::DivideByZero)
            } else if !in_i32(div_trunc(p, x as int)) {
                fail(with_stack(s, st.take(n - 3)), AbortView::Overflow)
            } else {
                ok(with_stack(s, st.take(n - 3).push(div_trunc(p, x as int) as i32)))
            }
        },
        WordFunc::Dup => if n < 1 {
            fail(s, AbortView::StackEmpty)
        } else {
            ok(with_stack(s, st.push(st.last())))
        },
        WordFunc::Exit => ok(exit_spec(s)),
        WordFunc::Eq => if n < 2 {
            fail(with_stack(s, Seq::empty()), AbortView::StackEmpty)
        } else {
            ok(with_stack(s, st.take(n - 2).push(if st[n - 1] == st[n - 2] { 1i32 } else { 0i32 })))
        },
        WordFunc::EndOfDefine => compile_spec(CoreView { state: CoreState::Normal, ..s }, "exit"@),
        WordFunc::Emit => if n < 1 {
            fail(s, AbortView::StackEmpty)
        } else {
            ok(with_output(with_stack(s, st.drop_last()), OutputView::Char(st.last() as u8)))
        },
        WordFunc::Cr => ok(with_output(s, OutputView::Char(10u8))),
        WordFunc::Literal => if s.ip == usize::MAX {
            fail(s, AbortView::Overflow)
        } else {
            let s1 = with_ip(s, (s.ip + 1) as usize);
            match lit_at(s1, s.ip + 1) {
                Ok(v) => ok(with_stack(s1, st.push(v))),
                Err(e) => fail(s1, e),
            }
        },
        WordFunc::Words => ok(with_output(s, OutputView::WordList(s.dict.words))),
        WordFunc::Core => ok(with_output(s, OutputView::CoreDump(snapshot(s)))),
        WordFunc::ToR => if n < 1 {
            fail(s, AbortView::StackEmpty)
        } else {
            ok(CoreView {
                stack: st.drop_last(),
                return_stack: s.return_stack.push(st.last() as usize),
                ..s
            })
        },
        WordFunc::FromR => if s.return_stack.len() == 0 {
            fail(s, AbortView::ReturnStackEmpty)
        } else {
            ok(CoreView {
                stack: st.push(s.return_stack.last() as i32),
                return_stack: s.return_stack.drop_last(),
                ..s
            })
        },
        WordFunc::Retrieve => if n < 1 {
            fail(s, AbortView::StackEmpty)
        } else {
            let s1 = with_stack(s, st.drop_last());
            match lit_at(s1, (st.last() as usize) as int) {
                Ok(v) => ok(with_stack(s1, st.drop_last().push(v))),
                Err(e) => fail(s1, e),
            }
        },
        WordFunc::Store => if n < 2 {
            fail(with_stack(s, Seq::empty()), AbortView::StackEmpty)
        } else {
            let pos = st[n - 1] as usize;
            let s1 = with_stack(s, st.take(n - 2));
            if pos >= d.len() {
                fail(s1, AbortView::BadAddress)
            } else {
                ok(with_defines(s1, d.update(pos as int, DefineItem::Lit((st[n - 2] as usize) as i32))))
            }
        },
        WordFunc::If => {
            let o = compile_spec(s, "_if"@);
            if o.error is Some {
                o
            } else {
                let s1 = o.core;
                let ph = s1.dict.defines.len();
                ok(with_stack(
                    with_defines(s1, s1.dict.defines.push(DefineItem::Lit(0))),
                    s1.stack.push((ph as usize) as i32),
                ))
            }
        },
        WordFunc::Then => if n < 1 {
            fail(s, AbortView::StackEmpty)
        } else {
            let pos = st.last() as usize;
            let s1 = with_stack(s, st.drop_last());
            if pos >= d.len() {
                fail(s1, AbortView::BadAddress)
            } else {
                ok(with_defines(s1, d.update(pos as int, DefineItem::Lit((d.len() as usize) as i32))))
            }
        },
        WordFunc::Else => {
            let o = compile_spec(s, "_jmp"@);
            if o.error is Some {
                o
            } else {
                let s1 = o.core;
                let ph_else = s1.dict.defines.len();
                let d2 = s1.dict.defines.push(DefineItem::Lit(0));
                let s2 = with_defines(s1, d2);
                if s2.stack.len() < 1 {
                    fail(s2, AbortView::StackEmpty)
                } else {
                    let pos = s2.stack.last() as usize;
                    let s3 = with_stack(s2, s2.stack.drop_last());
                    if pos >= d2.len() {
                        fail(s3, AbortView::BadAddress)
                    } else {
                        ok(with_stack(
                            with_defines(s3, d2.update(pos as int, DefineItem::Lit((d2.len() as usize) as i32))),
                            s3.stack.push((ph_else as usize) as i32),
                        ))
                    }
                }
            }
        },
        WordFunc::IfRuntime => if n < 1 {
            fail(s, AbortView::StackEmpty)
        } else {
            let s1 = with_stack(s, st.drop_last());
            if s.ip == usize::MAX {
                fail(s1, AbortView::Overflow)
            } else if st.last() == 0 {
                let s2 = with_ip(s1, (s.ip + 1) as usize);
                match lit_at(s2, s.ip + 1) {
                    Ok(t) => if t == i32::MIN {
                        fail(s2, AbortView::Overflow)
                    } else {
                        ok(with_ip(s2, (t - 1) as usize))
                    },
                    Err(e) => fail(s2, e),
                }
            } else {
                ok(with_ip(s1, (s.ip + 1) as usize))
            }
        },
        WordFunc::Jmp => if s.ip == usize::MAX {
            fail(s, AbortView::Overflow)
        } else {
            let s1 = with_ip(s, (s.ip + 1) as usize);
            match lit_at(s1, s.ip + 1) {
                Ok(t) => if t == i32::MIN {
                    fail(s1, AbortView::Overflow)
                } else {
                    ok(with_ip(s1, (t - 1) as usize))
                },
                Err(e) => fail(s1, e),
            }
        },
        WordFunc::Const => match lit_at(s, s.ip as int) {
            Ok(v) => ok(with_stack(s, st.push(v))),
            Err(e) => fail(s, e),
        },
        WordFunc::Var => ok(with_stack(s, st.push(s.ip as i32))),
        // The behaviours below are handled by `call_spec`.
        _ => ok(s),
    }
}

/// Where control goes once a behaviour has finished.
pub open spec fn resume_spec(s: CoreView, r: Resume) -> Outcome {
    match r {
        Resume::Next => if s.ip == usize::MAX {
            fail(s, AbortView::Overflow)
        } else {
            ok(with_ip(s, (s.ip + 1) as usize))
        },
        _ => ok(s),
    }
}

/// `o`, followed by the resumption `r` where it did not fail.
pub open spec fn then_resume(o: Outcome, r: Resume) -> Outcome {
    if o.error is Some {
        o
    } else {
        resume_spec(o.core, r)
    }
}

/// `s` with the entry created last replaced by `w`.
pub open spec fn update_last(s: CoreView, w: WordView) -> CoreView {
    let p = find_pos(s.dict.words, s.dict.last_word->0);
    CoreView { dict: DictView { words: s.dict.words.update(p, w), ..s.dict }, ..s }
}

/// The entry created last.
pub open spec fn last_entry(s: CoreView) -> WordView {
    s.dict.words[find_pos(s.dict.words, s.dict.last_word->0)]
}

/// Marking the entry created last as immediate, where there is one.
pub open spec fn immediate_spec(s: CoreView) -> Outcome {
    if s.dict.last_word is Some && find_pos(s.dict.words, s.dict.last_word->0) >= 0 {
        ok(update_last(s, WordView { immediate: true, ..last_entry(s) }))
    } else {
        fail(s, AbortView::NoLastWord)
    }
}

/// Completes a definition of kind `k` with the name `name`.
pub open spec fn finish_name(s: CoreView, k: NameFor, name: Seq<char>) -> Outcome {
    let s1 = CoreView {
        dict: DictView {
            words: insert_word(s.dict.words, created_word(name, s.dict.defines.len())),
            last_word: Some(name),
            ..s.dict
        },
        ..s
    };
    match k {
        NameFor::Word => ok(s1),
        NameFor::Create => ok(s1),
        _ => {
            let s2 = update_last(s1, WordView { func: WordFunc::Const, wtype: WordType::Const, ..last_entry(s1) });
            if s2.stack.len() < 1 {
                fail(s2, AbortView::StackEmpty)
            } else {
                let s3 = with_defines(
                    with_stack(s2, s2.stack.drop_last()),
                    s2.dict.defines.push(DefineItem::Lit(s2.stack.last())),
                );
                if k == NameFor::Const {
                    ok(s3)
                } else {
                    ok(update_last(s3, WordView { func: WordFunc::Var, wtype: WordType::Var, ..last_entry(s3) }))
                }
            }
        },
    }
}

/// A definition of kind `k` takes the next token as its name, or waits for
/// one where the text is used up.
pub open spec fn request_name(s: CoreView, k: NameFor, r: Resume) -> Outcome {
    if s.text.len() == 0 {
        ok(CoreView { awaiting: Some((k, r)), ..s })
    } else {
        then_resume(finish_name(CoreView { text: s.text.drop_last(), ..s }, k, s.text.last()), r)
    }
}

/// Running the behaviour `f`, with control going to `r` afterwards.
pub open spec fn call_spec(s: CoreView, f: WordFunc, r: Resume) -> Outcome {
    match f {
        WordFunc::DefineWord => request_name(
            CoreView { state: CoreState::Custom, output: s.output.push(OutputView::DefiningWord), ..s },
            NameFor::Word,
            r,
        ),
        WordFunc::Create => request_name(s, NameFor::Create, r),
        WordFunc::DefineConst => request_name(with_output(s, OutputView::DefiningConst), NameFor::Const, r),
        WordFunc::DefineVar => request_name(
            with_output(with_stack(s, s.stack.push(0)), OutputView::DefiningConst),
            NameFor::Var,
            r,
        ),
        WordFunc::Colon => ok(CoreView { frames: s.frames.push(r), ..s }),
        _ => then_resume(func_spec(s, f), r),
    }
}

/// Interpreting the token `t`: a word runs, or is compiled inside a
/// definition unless it is immediate; a number is pushed, or compiled as a
/// literal inside a definition; anything else is reported, and ends a
/// definition's compilation with a fault.
pub open spec fn parse_word_spec(s: CoreView, t: Seq<char>) -> Outcome {
    match lookup(s.dict.words, t) {
        Some(w) => if s.state == CoreState::Normal {
            if w.define_ptr == usize::MAX {
                fail(s, AbortView::Overflow)
            } else {
                call_spec(with_ip(s, (w.define_ptr + 1) as usize), w.func, Resume::Top)
            }
        } else if w.immediate {
            call_spec(with_ip(s, w.define_ptr), w.func, Resume::Top)
        } else {
            compile_spec(s, t)
        },
        None => match parse_i32_spec(t) {
            Some(v) => if s.state == CoreState::Normal {
                ok(with_stack(s, s.stack.push(v)))
            } else {
                let o = compile_spec(s, "_lit"@);
                if o.error is Some {
                    o
                } else {
                    ok(with_defines(o.core, o.core.dict.defines.push(DefineItem::Lit(v))))
                }
            },
            None => if s.state == CoreState::Normal {
                ok(with_output(s, OutputView::UnknownWord(t)))
            } else {
                fail(s, AbortView::UndefinedInDefinition(t))
            },
        },
    }
}

/// One cell of the colon definition being run: a literal is skipped; `exit`
/// ends the innermost definition; another behaviour runs and control moves
/// on; a call of a colon definition pushes the return address, jumps to its
/// body and runs the body's first behaviour.
pub open spec fn colon_step(s: CoreView) -> Outcome {
    let d = s.dict.defines;
    if s.ip >= d.len() {
        fail(s, AbortView::BadAddress)
    } else {
        match d[s.ip as int] {
            DefineItem::Lit(_) => ok(with_ip(s, (s.ip + 1) as usize)),
            DefineItem::Func(f) => if f == WordFunc::Exit {
                let s1 = exit_spec(s);
                resume_spec(CoreView { frames: s1.frames.drop_last(), ..s1 }, s1.frames.last())
            } else {
                call_spec(s, f, Resume::Next)
            },
            DefineItem::Addr(a) => {
                let s1 = CoreView {
                    return_stack: s.return_stack.push((s.ip + 1) as usize),
                    ip: a,
                    ..s
                };
                if a >= d.len() {
                    fail(s1, AbortView::BadAddress)
                } else {
                    match d[a as int] {
                        DefineItem::Func(g) => call_spec(with_ip(s1, (a + 1) as usize), g, Resume::Here),
                        _ => ok(s1),
                    }
                }
            },
        }
    }
}

/// One step of interpretation: a waiting definition takes its name; else a
/// cell of the running colon definition is run; else the next token is
/// interpreted.
#[verifier::opaque]
pub open spec fn step_spec(s: CoreView) -> (Outcome, StepStatus) {
    match s.awaiting {
        Some((k, r)) => if s.text.len() == 0 {
            (ok(s), StepStatus::NeedName)
        } else {
            (
                then_resume(
                    finish_name(CoreView { text: s.text.drop_last(), awaiting: None, ..s }, k, s.text.last()),
                    r,
                ),
                StepStatus::Progress,
            )
        },
        None => if s.frames.len() > 0 {
            (colon_step(s), StepStatus::Progress)
        } else if s.text.len() == 0 {
            (ok(s), StepStatus::Idle)
        } else {
            (parse_word_spec(CoreView { text: s.text.drop_last(), ..s }, s.text.last()), StepStatus::Progress)
        },
    }
}

/// At most `fuel` steps, stopping early where the text is used up or a
/// fault occurs.
pub open spec fn run_spec(s: CoreView, fuel: nat) -> (Outcome, RunStatus)
    decreases fuel,
{
    if fuel == 0 {
        (ok(s), RunStatus::OutOfFuel)
    } else {
        let (o, st) = step_spec(s);
        if o.error is Some {
            (o, RunStatus::OutOfFuel)
        } else {
            match st {
                StepStatus::Idle => (o, RunStatus::Idle),
                StepStatus::NeedName => (o, RunStatus::NeedName),
                StepStatus::Progress => run_spec(o.core, (fuel - 1) as nat),
            }
        }
    }
}

/// Runs the colon definitions above the first `depth` ones for at most
/// `fuel` steps: until they have all ended, a fault occurs, or a
/// definition waits for its name where the text is used up.
pub open spec fn body_run_spec(s: CoreView, depth: nat, fuel: nat) -> (Outcome, BodyStatus)
    decreases fuel,
{
    if s.frames.len() <= depth && s.awaiting is None {
        (ok(s), BodyStatus::Ended)
    } else if fuel == 0 {
        (ok(s), BodyStatus::OutOfFuel)
    } else {
        let (o, st) = step_spec(s);
        if o.error is Some {
            (o, BodyStatus::OutOfFuel)
        } else {
            match st {
                StepStatus::Progress => body_run_spec(o.core, depth, (fuel - 1) as nat),
                StepStatus::NeedName => (o, BodyStatus::NeedName),
                StepStatus::Idle => (o, BodyStatus::Ended),
            }
        }
    }
}

/// The entry of a primitive word.
pub open spec fn prim_word(name: Seq<char>, f: WordFunc, immediate: bool) -> WordView {
    WordView { name: name, func: f, wtype: WordType::Primv, immediate: immediate, define_ptr: 999 }
}

/// The primitive words, with their behaviours and whether they are
/// immediate, in the order in which they are entered.
pub open spec fn primitive_table() -> Seq<(Seq<char>, WordFunc, bool)> {
    seq![
        ("swap"@, WordFunc::Swap, false),
        ("."@, WordFunc::Disp, false),
        ("*"@, WordFunc::Mul, false),
        ("/"@, WordFunc::Div, false),
        ("*/"@, WordFunc::MulDiv, false),
        ("dup"@, WordFunc::Dup, false),
        ("exit"@, WordFunc::Exit, false),
        ("="@, WordFunc::Eq, false),
        (":"@, WordFunc::DefineWord, false),
        ("create"@, WordFunc::Create, true),
        (";"@, WordFunc::EndOfDefine, true),
        ("emit"@, WordFunc::Emit, false),
        ("cr"@, WordFunc::Cr, false),
        ("const"@, WordFunc::DefineConst, false),
        ("var"@, WordFunc::DefineVar, false),
        ("_lit"@, WordFunc::Literal, false),
        ("words"@, WordFunc::Words, false),
        ("core"@, WordFunc::Core, false),
        (">R"@, WordFunc::ToR, false),
        ("R@"@, WordFunc::FromR, false),
        ("@"@, WordFunc::Retrieve, false),
        ("!"@, WordFunc::Store, false),
        ("if"@, WordFunc::If, true),
        ("then"@, WordFunc::Then, true),
        ("endif"@, WordFunc::Then, true),
        ("else"@, WordFunc::Else, true),
        ("_if"@, WordFunc::IfRuntime, false),
        ("_jmp"@, WordFunc::Jmp, false),
    ]
}

/// `ws` with the entries of `table` entered in order.
pub open spec fn insert_all(ws: Seq<WordView>, table: Seq<(Seq<char>, WordFunc, bool)>) -> Seq<WordView>
    decreases table.len(),
{
    if table.len() == 0 {
        ws
    } else {
        let e = table.last();
        insert_word(insert_all(ws, table.drop_last()), prim_word(e.0, e.1, e.2))
    }
}

/// The state of a new interpreter.
pub open spec fn initial_core() -> CoreView {
    CoreView {
        stack: Seq::empty(),
        dict: DictView {
            words: insert_all(Seq::empty(), primitive_table()),
            defines: Seq::empty(),
            last_word: None,
        },
        state: CoreState::Normal,
        return_stack: Seq::empty(),
        text: Seq::empty(),
        ip: 99999,
        frames: Seq::empty(),
        awaiting: None,
        output: Seq::empty(),
    }
}

/// `s` with the text replaced by the tokens of `line`, the first one last.
pub open spec fn load_line(s: CoreView, line: Seq<char>) -> CoreView {
    CoreView { text: split_ws(line).reverse(), ..s }
}

} // verus!
