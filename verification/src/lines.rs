//! Interpreting two lines one after the other is interpreting them joined.
use vstd::prelude::*;

use crate::dictionary::{lookup, DefineItem};
use crate::interpreter::CoreState;
use crate::laws::{law_interpret_keeps, law_step_keeps};
use crate::output::OutputView;
use crate::semantics::{
    call_spec, colon_step, compile_spec, exit_spec, finish_name, func_spec, load_line, ok,
    parse_word_spec, request_name, resume_spec, run_spec, step_spec, then_resume, with_ip,
    with_output, with_stack, CoreView,
    NameFor, Outcome, Resume, RunStatus, StepStatus,
};
use crate::text::{law_split_ws_join, split_ws};
use crate::word::WordFunc;

verus! {

/// `s` with the tokens `x` to be read after its own.
pub open spec fn under(s: CoreView, x: Seq<Seq<char>>) -> CoreView {
    CoreView { text: x + s.text, ..s }
}

/// `o` with the tokens `x` to be read after its own.
pub open spec fn under_o(o: Outcome, x: Seq<Seq<char>>) -> Outcome {
    Outcome { core: under(o.core, x), error: o.error }
}

/// No state of the interpreter was shown from position `k` of `out` on.
pub open spec fn no_dump_from(out: Seq<OutputView>, k: int) -> bool {
    forall|i: int| k <= i < out.len() ==> !(#[trigger] out[i] is CoreDump)
}

/// `g`, the work done from `s` with the tokens `x` to be read after its own,
/// is `o`, the work done from `s`, with `x` still to be read; unless the
/// work asked for a token where `s`'s were used up, or showed the state.
/// Where it asked, it stopped there, with no fault.
pub open spec fn framed(s: CoreView, o: Outcome, g: Outcome, x: Seq<Seq<char>>) -> bool {
    &&& (o.core.awaiting is None && no_dump_from(o.core.output, s.output.len() as int)) ==> g
        == under_o(o, x)
    &&& o.core.awaiting is Some ==> o.core.text.len() == 0 && o.error is None
}

proof fn lemma_resume_frame(s: CoreView, r: Resume, x: Seq<Seq<char>>)
    ensures
        resume_spec(under(s, x), r) == under_o(resume_spec(s, r), x),
        resume_spec(s, r).core.awaiting == s.awaiting,
        resume_spec(s, r).core.output == s.output,
        resume_spec(s, r).core.text == s.text,
{
}

proof fn lemma_then_resume_frame(s: CoreView, o: Outcome, g: Outcome, r: Resume, x: Seq<Seq<char>>)
    requires
        framed(s, o, g, x),
        o.core.awaiting is None,
        s.output.len() <= o.core.output.len(),
    ensures
        framed(s, then_resume(o, r), then_resume(g, r), x),
        then_resume(o, r).core.awaiting is None,
        then_resume(o, r).core.output == o.core.output,
{
    lemma_resume_frame(o.core, r, x);
}

proof fn lemma_compile_frame(s: CoreView, name: Seq<char>, x: Seq<Seq<char>>)
    ensures
        compile_spec(under(s, x), name) == under_o(compile_spec(s, name), x),
        compile_spec(s, name).core.awaiting == s.awaiting,
        compile_spec(s, name).core.text == s.text,
{
}

proof fn lemma_func_frame(s: CoreView, f: WordFunc, x: Seq<Seq<char>>)
    requires
        f != WordFunc::Core,
    ensures
        func_spec(under(s, x), f) == under_o(func_spec(s, f), x),
        func_spec(s, f).core.awaiting == s.awaiting,
        func_spec(s, f).core.text == s.text,
{
    match f {
        WordFunc::Swap => {},
        WordFunc::Disp => {},
        WordFunc::Mul => {},
        WordFunc::Div => {},
        WordFunc::MulDiv => {},
        WordFunc::Dup => {},
        WordFunc::Exit => {},
        WordFunc::Eq => {},
        WordFunc::DefineWord => {},
        WordFunc::Create => {},
        WordFunc::Emit => {},
        WordFunc::Cr => {},
        WordFunc::DefineConst => {},
        WordFunc::DefineVar => {},
        WordFunc::Literal => {},
        WordFunc::Words => {},
        WordFunc::ToR => {},
        WordFunc::FromR => {},
        WordFunc::Retrieve => {},
        WordFunc::Store => {},
        WordFunc::Then => {},
        WordFunc::IfRuntime => {},
        WordFunc::Jmp => {},
        WordFunc::Colon => {},
        WordFunc::Const => {},
        WordFunc::Var => {},
        WordFunc::EndOfDefine => {
            lemma_compile_frame(CoreView { state: CoreState::Normal, ..s }, "exit"@, x);
            assert(CoreView { state: CoreState::Normal, ..under(s, x) } == under(
                CoreView { state: CoreState::Normal, ..s },
                x,
            ));
        },
        WordFunc::If => {
            lemma_compile_frame(s, "_if"@, x);
        },
        WordFunc::Else => {
            lemma_compile_frame(s, "_jmp"@, x);
        },
        WordFunc::Core => {},
    }
}

proof fn lemma_finish_frame(s: CoreView, k: NameFor, name: Seq<char>, x: Seq<Seq<char>>)
    ensures
        finish_name(under(s, x), k, name) == under_o(finish_name(s, k, name), x),
        finish_name(s, k, name).core.awaiting == s.awaiting,
        finish_name(s, k, name).core.text == s.text,
{
}

proof fn lemma_request_frame(s: CoreView, k: NameFor, r: Resume, x: Seq<Seq<char>>)
    requires
        s.awaiting is None,
    ensures
        framed(s, request_name(s, k, r), request_name(under(s, x), k, r), x),
        request_name(s, k, r).core.awaiting is None ==> s.text.len() > 0,
{
    if s.text.len() > 0 {
        let s1 = CoreView { text: s.text.drop_last(), ..s };
        assert(under(s, x).text.drop_last() =~= x + s.text.drop_last());
        assert(under(s, x).text.last() == s.text.last());
        assert(CoreView { text: under(s, x).text.drop_last(), ..under(s, x) } == under(s1, x));
        lemma_finish_frame(s1, k, s.text.last(), x);
        lemma_then_resume_frame(s1, finish_name(s1, k, s.text.last()), finish_name(under(s1, x), k, s.text.last()), r, x);
    }
}

proof fn lemma_call_frame(s: CoreView, f: WordFunc, r: Resume, x: Seq<Seq<char>>)
    requires
        s.awaiting is None,
    ensures
        framed(s, call_spec(s, f, r), call_spec(under(s, x), f, r), x),
{
    let o = call_spec(s, f, r);
    match f {
        WordFunc::DefineWord => {
            let s1 = CoreView {
                state: CoreState::Custom,
                output: s.output.push(OutputView::DefiningWord),
                ..s
            };
            lemma_request_frame(s1, NameFor::Word, r, x);
            assert(CoreView {
                state: CoreState::Custom,
                output: under(s, x).output.push(OutputView::DefiningWord),
                ..under(s, x)
            } == under(s1, x));
            if o.core.awaiting is None && no_dump_from(o.core.output, s.output.len() as int) {
                assert(no_dump_from(o.core.output, s1.output.len() as int));
            }
        },
        WordFunc::Create => {
            lemma_request_frame(s, NameFor::Create, r, x);
        },
        WordFunc::DefineConst => {
            let s1 = with_output(s, OutputView::DefiningConst);
            lemma_request_frame(s1, NameFor::Const, r, x);
            assert(with_output(under(s, x), OutputView::DefiningConst) == under(s1, x));
            if o.core.awaiting is None && no_dump_from(o.core.output, s.output.len() as int) {
                assert(no_dump_from(o.core.output, s1.output.len() as int));
            }
        },
        WordFunc::DefineVar => {
            let s1 = with_output(
                with_stack(s, s.stack.push(0)),
                OutputView::DefiningConst,
            );
            lemma_request_frame(s1, NameFor::Var, r, x);
            assert(with_output(
                with_stack(under(s, x), under(s, x).stack.push(0)),
                OutputView::DefiningConst,
            ) == under(s1, x));
            if o.core.awaiting is None && no_dump_from(o.core.output, s.output.len() as int) {
                assert(no_dump_from(o.core.output, s1.output.len() as int));
            }
        },
        WordFunc::Colon => {},
        WordFunc::Core => {
            let d = func_spec(s, f).core.output;
            assert(d[s.output.len() as int] is CoreDump);
        },
        _ => {
            lemma_func_frame(s, f, x);
            lemma_resume_frame(func_spec(s, f).core, r, x);
        },
    }
}

proof fn lemma_parse_frame(s: CoreView, t: Seq<char>, x: Seq<Seq<char>>)
    requires
        s.awaiting is None,
    ensures
        framed(s, parse_word_spec(s, t), parse_word_spec(under(s, x), t), x),
{
    match lookup(s.dict.words, t) {
        Some(w) => {
            if s.state == CoreState::Normal {
                if w.define_ptr != usize::MAX {
                    let s1 = with_ip(s, (w.define_ptr + 1) as usize);
                    assert(with_ip(under(s, x), (w.define_ptr + 1) as usize) == under(s1, x));
                    lemma_call_frame(s1, w.func, Resume::Top, x);
                }
            } else if w.immediate {
                let s1 = with_ip(s, w.define_ptr);
                assert(with_ip(under(s, x), w.define_ptr) == under(s1, x));
                lemma_call_frame(s1, w.func, Resume::Top, x);
            } else {
                lemma_compile_frame(s, t, x);
            }
        },
        None => {
            lemma_compile_frame(s, "_lit"@, x);
        },
    }
}

proof fn lemma_colon_frame(s: CoreView, x: Seq<Seq<char>>)
    requires
        s.awaiting is None,
    ensures
        framed(s, colon_step(s), colon_step(under(s, x)), x),
{
    let d = s.dict.defines;
    if s.ip < d.len() {
        match d[s.ip as int] {
            DefineItem::Func(f) => {
                if f == WordFunc::Exit {
                    let s1 = exit_spec(s);
                    let s2 = CoreView { frames: s1.frames.drop_last(), ..s1 };
                    assert(CoreView { frames: exit_spec(under(s, x)).frames.drop_last(), ..exit_spec(under(s, x)) } == under(s2, x));
                    lemma_resume_frame(s2, s1.frames.last(), x);
                } else {
                    lemma_call_frame(s, f, Resume::Next, x);
                }
            },
            DefineItem::Addr(a) => {
                let s1 = CoreView { return_stack: s.return_stack.push((s.ip + 1) as usize), ip: a, ..s };
                if a < d.len() {
                    match d[a as int] {
                        DefineItem::Func(g) => {
                            let s2 = with_ip(s1, (a + 1) as usize);
                            assert(with_ip(CoreView { return_stack: s.return_stack.push((s.ip + 1) as usize), ip: a, ..under(s, x) }, (a + 1) as usize) == under(s2, x));
                            lemma_call_frame(s2, g, Resume::Here, x);
                        },
                        _ => {},
                    }
                }
            },
            _ => {},
        }
    }
}

proof fn lemma_step_awaiting_frame(s: CoreView, x: Seq<Seq<char>>)
    requires
        s.awaiting is Some,
        s.text.len() > 0,
    ensures
        framed(s, step_spec(s).0, step_spec(under(s, x)).0, x),
        step_spec(under(s, x)).1 == StepStatus::Progress,
{
    let (k, r) = s.awaiting->0;
    let s1 = CoreView { text: s.text.drop_last(), awaiting: None, ..s };
    let t = s.text.last();
    assert(under(s, x).text.drop_last() =~= x + s.text.drop_last());
    assert(under(s, x).text.last() == t);
    assert(CoreView { text: under(s, x).text.drop_last(), awaiting: None, ..under(s, x) } == under(s1, x));
    assert(step_spec(s) == (then_resume(finish_name(s1, k, t), r), StepStatus::Progress)) by {
        reveal(step_spec);
    }
    assert(step_spec(under(s, x)) == (then_resume(finish_name(under(s1, x), k, t), r), StepStatus::Progress)) by {
        reveal(step_spec);
    }
    lemma_finish_frame(s1, k, t, x);
    lemma_then_resume_frame(s1, finish_name(s1, k, t), finish_name(under(s1, x), k, t), r, x);
}

proof fn lemma_step_colon_frame(s: CoreView, x: Seq<Seq<char>>)
    requires
        s.awaiting is None,
        s.frames.len() > 0,
    ensures
        framed(s, step_spec(s).0, step_spec(under(s, x)).0, x),
        step_spec(under(s, x)).1 == StepStatus::Progress,
{
    assert(step_spec(s) == (colon_step(s), StepStatus::Progress)) by {
        reveal(step_spec);
    }
    assert(step_spec(under(s, x)) == (colon_step(under(s, x)), StepStatus::Progress)) by {
        reveal(step_spec);
    }
    lemma_colon_frame(s, x);
}

proof fn lemma_step_parse_frame(s: CoreView, x: Seq<Seq<char>>)
    requires
        s.awaiting is None,
        s.frames.len() == 0,
        s.text.len() > 0,
    ensures
        framed(s, step_spec(s).0, step_spec(under(s, x)).0, x),
        step_spec(under(s, x)).1 == StepStatus::Progress,
{
    let s1 = CoreView { text: s.text.drop_last(), ..s };
    let t = s.text.last();
    assert(under(s, x).text.drop_last() =~= x + s.text.drop_last());
    assert(under(s, x).text.last() == t);
    assert(CoreView { text: under(s, x).text.drop_last(), ..under(s, x) } == under(s1, x));
    assert(step_spec(s) == (parse_word_spec(s1, t), StepStatus::Progress)) by {
        reveal(step_spec);
    }
    assert(step_spec(under(s, x)) == (parse_word_spec(under(s1, x), t), StepStatus::Progress)) by {
        reveal(step_spec);
    }
    lemma_parse_frame(s1, t, x);
}

/// A step that does some work, and neither asks for a token where the text
/// is used up nor shows the state, does the same with more tokens to read
/// after the text.
pub proof fn lemma_step_frame(s: CoreView, x: Seq<Seq<char>>)
    requires
        step_spec(s).1 == StepStatus::Progress,
    ensures
        framed(s, step_spec(s).0, step_spec(under(s, x)).0, x),
        step_spec(under(s, x)).1 == StepStatus::Progress,
{
    assert(s.awaiting is Some ==> s.text.len() > 0) by {
        reveal(step_spec);
    }
    assert(s.awaiting is None && s.frames.len() == 0 ==> s.text.len() > 0) by {
        reveal(step_spec);
    }
    if s.awaiting is Some {
        lemma_step_awaiting_frame(s, x);
    } else if s.frames.len() > 0 {
        lemma_step_colon_frame(s, x);
    } else {
        lemma_step_parse_frame(s, x);
    }
}

/// A step that reports `Idle` found nothing to do and changed nothing; a
/// definition waiting for its name where the text is used up makes a step
/// report `NeedName`.
proof fn lemma_step_stops(s: CoreView)
    ensures
        step_spec(s).1 == StepStatus::Idle ==> step_spec(s).0 == ok(s) && s.text.len() == 0,
        s.awaiting is Some && s.text.len() == 0 ==> step_spec(s).1 == StepStatus::NeedName,
{
    reveal(step_spec);
}

/// A run that has ended, with a fault or because the text was used up or a
/// name was waited for, ends the same with a larger budget.
proof fn lemma_run_ended(s: CoreView, m: nat, f: nat)
    requires
        f >= m,
        run_spec(s, m).0.error is Some || run_spec(s, m).1 != RunStatus::OutOfFuel,
    ensures
        run_spec(s, f) == run_spec(s, m),
    decreases m,
{
    if m > 0 {
        let (o, st) = step_spec(s);
        if o.error is None && st == StepStatus::Progress {
            lemma_run_ended(o.core, (m - 1) as nat, (f - 1) as nat);
        }
    }
}

/// A run that ends with the text used up, showing no state, runs the same
/// way with more tokens to read after the text, and then goes on with them:
/// after some `k` steps, it is where the first run ended, with those tokens
/// to read.
proof fn lemma_run_frame(s: CoreView, x: Seq<Seq<char>>, n: nat) -> (k: nat)
    requires
        run_spec(s, n).0.error is None,
        run_spec(s, n).1 == RunStatus::Idle,
        no_dump_from(run_spec(s, n).0.core.output, s.output.len() as int),
    ensures
        k < n,
        forall|f: nat| #[trigger] run_spec(under(s, x), k + f) == run_spec(under(run_spec(s, n).0.core, x), f),
    decreases n,
{
    let (o, st) = step_spec(s);
    lemma_step_stops(s);
    lemma_step_stops(o.core);
    if st == StepStatus::Idle {
        assert forall|f: nat| #[trigger] run_spec(under(s, x), 0 + f) == run_spec(under(run_spec(s, n).0.core, x), f) by {
            assert(0 + f == f);
        }
        0
    } else {
        assert(st == StepStatus::Progress && o.error is None);
        let fin = run_spec(s, n).0.core;
        law_step_keeps(s);
        law_interpret_keeps(o.core, (n - 1) as nat);
        assert forall|i: int| s.output.len() <= i < o.core.output.len() implies !(#[trigger] o.core.output[i] is CoreDump) by {
            assert(fin.output.subrange(0, o.core.output.len() as int)[i] == fin.output[i]);
        }
        if o.core.awaiting is Some {
            lemma_step_frame(s, x);
            assert(step_spec(o.core).1 == StepStatus::NeedName);
            assert(false);
        }
        lemma_step_frame(s, x);
        let k1 = lemma_run_frame(o.core, x, (n - 1) as nat);
        assert forall|f: nat| #[trigger] run_spec(under(s, x), (k1 + 1) + f) == run_spec(under(fin, x), f) by {
            assert(run_spec(under(o.core, x), k1 + f) == run_spec(under(fin, x), f));
            assert(((k1 + 1) + f - 1) as nat == k1 + f);
        }
        k1 + 1
    }
}

/// Interpreting one line and then another is interpreting the two joined
/// by a space, where the first line's run ends with its text used up and
/// shows no state (the `core` word would show the second line's tokens as
/// still to be read), and the second line's run ends within its budget.
pub proof fn law_lines_joined(s: CoreView, a: Seq<char>, b: Seq<char>, n: nat, m: nat)
    requires
        run_spec(load_line(s, a), n).0.error is None,
        run_spec(load_line(s, a), n).1 == RunStatus::Idle,
        no_dump_from(run_spec(load_line(s, a), n).0.core.output, s.output.len() as int),
        run_spec(load_line(run_spec(load_line(s, a), n).0.core, b), m).0.error is Some
            || run_spec(load_line(run_spec(load_line(s, a), n).0.core, b), m).1 != RunStatus::OutOfFuel,
    ensures
        run_spec(load_line(s, a + seq![' '] + b), n + m) == run_spec(
            load_line(run_spec(load_line(s, a), n).0.core, b),
            m,
        ),
{
    let sa = load_line(s, a);
    let fa = run_spec(sa, n).0.core;
    let xb = split_ws(b).reverse();
    law_split_ws_join(a, b);
    assert((split_ws(a) + split_ws(b)).reverse() =~= xb + split_ws(a).reverse());
    assert(load_line(s, a + seq![' '] + b) == under(sa, xb));
    let k = lemma_run_frame(sa, xb, n);
    assert(fa.text.len() == 0) by {
        lemma_idle_text(sa, n);
    }
    assert(under(fa, xb) == load_line(fa, b)) by {
        assert(xb + fa.text =~= xb);
    }
    let f = (n + m - k) as nat;
    assert(run_spec(under(sa, xb), k + f) == run_spec(load_line(fa, b), f));
    assert(k + f == n + m);
    lemma_run_ended(load_line(fa, b), m, f);
}

/// A run that ends `Idle` ends with its text used up.
proof fn lemma_idle_text(s: CoreView, n: nat)
    requires
        run_spec(s, n).0.error is None,
        run_spec(s, n).1 == RunStatus::Idle,
    ensures
        run_spec(s, n).0.core.text.len() == 0,
    decreases n,
{
    let (o, st) = step_spec(s);
    lemma_step_stops(s);
    if st == StepStatus::Idle {
    } else {
        lemma_idle_text(o.core, (n - 1) as nat);
    }
}

} // verus!
