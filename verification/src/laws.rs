//! Properties of the interpreter that span several operations.
use vstd::prelude::*;

use crate::dictionary::{
    created_word, find_pos, insert_word, law_insert_keeps_names_unique, law_lookup_after_insert,
    dict_wf, lemma_find_pos, lemma_update_same_name, lookup, names_unique, DefineItem, DictView,
};
use crate::error::AbortView;
use crate::interpreter::CoreState;
use crate::output::OutputView;
use crate::semantics::{
    call_spec, colon_step, compile_spec, exit_spec, finish_name, func_spec, initial_core, insert_all,
    last_entry, lit_at, ok, parse_word_spec, prim_word, primitive_table, request_name, resume_spec,
    run_spec, step_spec, then_resume, update_last, with_defines, with_ip, with_output, with_stack,
    CoreView, NameFor, Outcome, Resume, RunStatus, StepStatus,
};
use crate::text::parse_i32_spec;
use crate::word::{WordFunc, WordType, WordView};

verus! {

/// Interpreting for `n` steps and then, where the steps ran out, for `m`
/// more, is interpreting for `n + m` steps.
pub proof fn law_interpret_in_parts(s: CoreView, n: nat, m: nat)
    requires
        run_spec(s, n).0.error is None,
        run_spec(s, n).1 == RunStatus::OutOfFuel,
    ensures
        run_spec(s, n + m) == run_spec(run_spec(s, n).0.core, m),
    decreases n,
{
    if n > 0 {
        let (o, st) = step_spec(s);
        assert(o.error is None && st == StepStatus::Progress);
        law_interpret_in_parts(o.core, (n - 1) as nat, m);
        assert((n + m - 1) as nat == ((n - 1) as nat + m) as nat);
    }
}

/// Once the text is used up and nothing is left to do, interpreting changes
/// nothing and reports `Idle`, whatever the budget.
pub proof fn law_idle_is_stable(s: CoreView, n: nat)
    requires
        n > 0,
        step_spec(s).1 == StepStatus::Idle,
    ensures
        run_spec(s, n).0.core == s,
        run_spec(s, n).0.error is None,
        run_spec(s, n).1 == RunStatus::Idle,
{
    reveal(step_spec);
}

/// From `a` to `b`, output was only added to, and a well-formed dictionary
/// stayed well-formed.
pub open spec fn keeps(a: CoreView, b: CoreView) -> bool {
    &&& a.output.len() <= b.output.len()
    &&& b.output.subrange(0, a.output.len() as int) == a.output
    &&& (dict_wf(a.dict) ==> dict_wf(b.dict))
}

proof fn lemma_keeps_trans(a: CoreView, b: CoreView, c: CoreView)
    requires
        keeps(a, b),
        keeps(b, c),
    ensures
        keeps(a, c),
{
    assert forall|i: int| 0 <= i < a.output.len() implies c.output[i] == a.output[i] by {
        assert(c.output.subrange(0, b.output.len() as int)[i] == c.output[i]);
        assert(b.output.subrange(0, a.output.len() as int)[i] == b.output[i]);
    }
    assert(c.output.subrange(0, a.output.len() as int) =~= a.output);
}

/// A state that changes no more than its output, by at most one item, and
/// the parts of its dictionary other than the entries and the last name,
/// keeps.
proof fn lemma_keeps_simple(a: CoreView, b: CoreView)
    requires
        b.output == a.output || (b.output.len() == a.output.len() + 1 && b.output.drop_last() == a.output),
        b.dict.words == a.dict.words,
        b.dict.last_word == a.dict.last_word,
    ensures
        keeps(a, b),
{
    if b.output != a.output {
        assert(b.output.subrange(0, a.output.len() as int) =~= b.output.drop_last());
    } else {
        assert(b.output.subrange(0, a.output.len() as int) =~= a.output);
    }
}

proof fn lemma_compile_keeps(s: CoreView, name: Seq<char>)
    ensures
        keeps(s, compile_spec(s, name).core),
{
    let b = compile_spec(s, name).core;
    if b.output != s.output {
        assert(b.output.drop_last() =~= s.output);
    }
    lemma_keeps_simple(s, b);
}

proof fn lemma_resume_keeps(s: CoreView, r: Resume)
    ensures
        keeps(s, resume_spec(s, r).core),
{
    lemma_keeps_simple(s, resume_spec(s, r).core);
}

proof fn lemma_then_resume_keeps(s: CoreView, o: Outcome, r: Resume)
    requires
        keeps(s, o.core),
    ensures
        keeps(s, then_resume(o, r).core),
{
    if o.error is None {
        lemma_resume_keeps(o.core, r);
        lemma_keeps_trans(s, o.core, then_resume(o, r).core);
    }
}

proof fn lemma_func_keeps(s: CoreView, f: WordFunc)
    ensures
        keeps(s, func_spec(s, f).core),
{
    let b = func_spec(s, f).core;
    match f {
        WordFunc::EndOfDefine => {
            lemma_compile_keeps(CoreView { state: CoreState::Normal, ..s }, "exit"@);
        },
        WordFunc::If => {
            lemma_compile_keeps(s, "_if"@);
            lemma_keeps_simple(compile_spec(s, "_if"@).core, b);
            lemma_keeps_trans(s, compile_spec(s, "_if"@).core, b);
        },
        WordFunc::Else => {
            lemma_compile_keeps(s, "_jmp"@);
            lemma_keeps_simple(compile_spec(s, "_jmp"@).core, b);
            lemma_keeps_trans(s, compile_spec(s, "_jmp"@).core, b);
        },
        _ => {
            if b.output != s.output {
                assert(b.output.drop_last() =~= s.output);
            }
            lemma_keeps_simple(s, b);
        },
    }
}

proof fn lemma_finish_keeps(s: CoreView, k: NameFor, name: Seq<char>)
    ensures
        keeps(s, finish_name(s, k, name).core),
{
    let w = created_word(name, s.dict.defines.len());
    let s1 = CoreView {
        dict: DictView {
            words: insert_word(s.dict.words, w),
            last_word: Some(name),
            ..s.dict
        },
        ..s
    };
    law_lookup_after_insert(s.dict.words, w, name);
    lemma_find_pos(s1.dict.words, name);
    if names_unique(s.dict.words) {
        law_insert_keeps_names_unique(s.dict.words, w);
    }
    assert(s1.output.subrange(0, s.output.len() as int) =~= s.output);
    assert(keeps(s, s1));
    let b = finish_name(s, k, name).core;
    if k == NameFor::Const || k == NameFor::Var {
        let p = find_pos(s1.dict.words, name);
        let w2 = WordView { func: WordFunc::Const, wtype: WordType::Const, ..last_entry(s1) };
        lemma_update_same_name(s1.dict.words, p, w2);
        let s2 = update_last(s1, w2);
        lemma_keeps_simple(s1, s1);
        assert(keeps(s1, s2));
        lemma_keeps_trans(s, s1, s2);
        if s2.stack.len() >= 1 && k == NameFor::Var {
            let s3 = with_defines(
                with_stack(s2, s2.stack.drop_last()),
                s2.dict.defines.push(DefineItem::Lit(s2.stack.last())),
            );
            let p3 = find_pos(s3.dict.words, name);
            let w3 = WordView { func: WordFunc::Var, wtype: WordType::Var, ..last_entry(s3) };
            lemma_find_pos(s3.dict.words, name);
            lemma_update_same_name(s3.dict.words, p3, w3);
            assert(keeps(s2, b));
            lemma_keeps_trans(s, s2, b);
        } else {
            lemma_keeps_simple(s2, b);
            lemma_keeps_trans(s, s2, b);
        }
    }
}

proof fn lemma_request_keeps(s: CoreView, k: NameFor, r: Resume)
    ensures
        keeps(s, request_name(s, k, r).core),
{
    if s.text.len() == 0 {
        lemma_keeps_simple(s, request_name(s, k, r).core);
    } else {
        let s1 = CoreView { text: s.text.drop_last(), ..s };
        lemma_keeps_simple(s, s1);
        lemma_finish_keeps(s1, k, s.text.last());
        lemma_keeps_trans(s, s1, finish_name(s1, k, s.text.last()).core);
        lemma_then_resume_keeps(s, finish_name(s1, k, s.text.last()), r);
    }
}

proof fn lemma_call_keeps(s: CoreView, f: WordFunc, r: Resume)
    ensures
        keeps(s, call_spec(s, f, r).core),
{
    match f {
        WordFunc::DefineWord => {
            let s1 = CoreView {
                state: CoreState::Custom,
                output: s.output.push(OutputView::DefiningWord),
                ..s
            };
            assert(s1.output.drop_last() =~= s.output);
            lemma_keeps_simple(s, s1);
            lemma_request_keeps(s1, NameFor::Word, r);
            lemma_keeps_trans(s, s1, call_spec(s, f, r).core);
        },
        WordFunc::Create => {
            lemma_request_keeps(s, NameFor::Create, r);
        },
        WordFunc::DefineConst => {
            let s1 = with_output(s, OutputView::DefiningConst);
            assert(s1.output.drop_last() =~= s.output);
            lemma_keeps_simple(s, s1);
            lemma_request_keeps(s1, NameFor::Const, r);
            lemma_keeps_trans(s, s1, call_spec(s, f, r).core);
        },
        WordFunc::DefineVar => {
            let s1 = with_output(
                with_stack(s, s.stack.push(0)),
                OutputView::DefiningConst,
            );
            assert(s1.output.drop_last() =~= s.output);
            lemma_keeps_simple(s, s1);
            lemma_request_keeps(s1, NameFor::Var, r);
            lemma_keeps_trans(s, s1, call_spec(s, f, r).core);
        },
        WordFunc::Colon => {
            lemma_keeps_simple(s, call_spec(s, f, r).core);
        },
        _ => {
            lemma_func_keeps(s, f);
            lemma_then_resume_keeps(s, func_spec(s, f), r);
        },
    }
}

proof fn lemma_parse_keeps(s: CoreView, t: Seq<char>)
    ensures
        keeps(s, parse_word_spec(s, t).core),
{
    let b = parse_word_spec(s, t).core;
    match lookup(s.dict.words, t) {
        Some(w) => {
            if s.state == CoreState::Normal {
                if w.define_ptr == usize::MAX {
                    lemma_keeps_simple(s, b);
                } else {
                    let s1 = with_ip(s, (w.define_ptr + 1) as usize);
                    lemma_keeps_simple(s, s1);
                    lemma_call_keeps(s1, w.func, Resume::Top);
                    lemma_keeps_trans(s, s1, b);
                }
            } else if w.immediate {
                let s1 = with_ip(s, w.define_ptr);
                lemma_keeps_simple(s, s1);
                lemma_call_keeps(s1, w.func, Resume::Top);
                lemma_keeps_trans(s, s1, b);
            } else {
                lemma_compile_keeps(s, t);
            }
        },
        None => {
            match parse_i32_spec(t) {
                Some(v) => {
                    if s.state == CoreState::Normal {
                        lemma_keeps_simple(s, b);
                    } else {
                        lemma_compile_keeps(s, "_lit"@);
                        let c = compile_spec(s, "_lit"@).core;
                        if compile_spec(s, "_lit"@).error is None {
                            lemma_keeps_simple(c, b);
                            lemma_keeps_trans(s, c, b);
                        }
                    }
                },
                None => {
                    if b.output != s.output {
                        assert(b.output.drop_last() =~= s.output);
                    }
                    lemma_keeps_simple(s, b);
                },
            }
        },
    }
}

proof fn lemma_colon_keeps(s: CoreView)
    ensures
        keeps(s, colon_step(s).core),
{
    let d = s.dict.defines;
    let b = colon_step(s).core;
    if s.ip < d.len() {
        match d[s.ip as int] {
            DefineItem::Func(f) => {
                if f == WordFunc::Exit {
                    let s1 = exit_spec(s);
                    let s2 = CoreView { frames: s1.frames.drop_last(), ..s1 };
                    lemma_keeps_simple(s, s2);
                    lemma_resume_keeps(s2, s1.frames.last());
                    lemma_keeps_trans(s, s2, b);
                } else {
                    lemma_call_keeps(s, f, Resume::Next);
                }
            },
            DefineItem::Addr(a) => {
                let s1 = CoreView { return_stack: s.return_stack.push((s.ip + 1) as usize), ip: a, ..s };
                lemma_keeps_simple(s, s1);
                if a < d.len() {
                    match d[a as int] {
                        DefineItem::Func(g) => {
                            let s2 = with_ip(s1, (a + 1) as usize);
                            lemma_keeps_simple(s, s2);
                            lemma_call_keeps(s2, g, Resume::Here);
                            lemma_keeps_trans(s, s2, b);
                        },
                        _ => {},
                    }
                }
            },
            _ => {
                lemma_keeps_simple(s, b);
            },
        }
    } else {
        lemma_keeps_simple(s, b);
    }
}

/// One step of interpretation only adds to the output, and keeps a
/// well-formed dictionary well-formed: names stay unique, and the entry
/// created last stays in it.
pub proof fn law_step_keeps(s: CoreView)
    ensures
        keeps(s, step_spec(s).0.core),
{
    reveal(step_spec);
    match s.awaiting {
        Some((k, r)) => {
            if s.text.len() == 0 {
                lemma_keeps_simple(s, s);
            } else {
                let s1 = CoreView { text: s.text.drop_last(), awaiting: None, ..s };
                lemma_keeps_simple(s, s1);
                lemma_finish_keeps(s1, k, s.text.last());
                lemma_keeps_trans(s, s1, finish_name(s1, k, s.text.last()).core);
                lemma_then_resume_keeps(s, finish_name(s1, k, s.text.last()), r);
            }
        },
        None => {
            if s.frames.len() > 0 {
                lemma_colon_keeps(s);
            } else if s.text.len() == 0 {
                lemma_keeps_simple(s, s);
            } else {
                let s1 = CoreView { text: s.text.drop_last(), ..s };
                lemma_keeps_simple(s, s1);
                lemma_parse_keeps(s1, s.text.last());
                lemma_keeps_trans(s, s1, step_spec(s).0.core);
            }
        },
    }
}

/// Interpreting for any number of steps only adds to the output, and keeps
/// a well-formed dictionary well-formed.
pub proof fn law_interpret_keeps(s: CoreView, n: nat)
    ensures
        keeps(s, run_spec(s, n).0.core),
    decreases n,
{
    if n == 0 {
        lemma_keeps_simple(s, s);
    } else {
        law_step_keeps(s);
        let (o, st) = step_spec(s);
        if o.error is None && st == StepStatus::Progress {
            law_interpret_keeps(o.core, (n - 1) as nat);
            lemma_keeps_trans(s, o.core, run_spec(s, n).0.core);
        }
    }
}

proof fn lemma_insert_all_unique(ws: Seq<WordView>, t: Seq<(Seq<char>, WordFunc, bool)>)
    requires
        names_unique(ws),
    ensures
        names_unique(insert_all(ws, t)),
    decreases t.len(),
{
    if t.len() > 0 {
        lemma_insert_all_unique(ws, t.drop_last());
        let e = t.last();
        law_insert_keeps_names_unique(insert_all(ws, t.drop_last()), prim_word(e.0, e.1, e.2));
    }
}

/// A new interpreter's dictionary is well-formed.
pub proof fn law_new_is_well_formed()
    ensures
        dict_wf(initial_core().dict),
{
    lemma_insert_all_unique(Seq::empty(), primitive_table());
}

/// What `@` reads back from an address of the code space is what `!`
/// stored there.
pub proof fn law_fetch_after_store(s: CoreView, val: i32, addr: i32)
    requires
        0 <= addr < s.dict.defines.len(),
    ensures
        ({
            let s1 = with_stack(s, s.stack.push(val).push(addr));
            let o1 = func_spec(s1, WordFunc::Store);
            let s2 = with_stack(o1.core, o1.core.stack.push(addr));
            let o2 = func_spec(s2, WordFunc::Retrieve);
            &&& o1.error is None
            &&& o2.error is None
            &&& o2.core.stack == s.stack.push(val)
        }),
{
    let s1 = with_stack(s, s.stack.push(val).push(addr));
    assert(s1.stack.take(s1.stack.len() - 2) =~= s.stack);
    assert(((val as usize) as i32) == val) by (bit_vector);
    assert((addr as usize) as int == addr as int) by (bit_vector)
        requires
            0 <= addr,
    ;
}

/// Compiling `if` and then `then` with nothing in between appends a
/// conditional branch whose target is the cell right after it, and leaves
/// the data stack as it was.
pub proof fn law_if_then_patches(s: CoreView)
    requires
        lookup(s.dict.words, "_if"@) == Some(prim_word("_if"@, WordFunc::IfRuntime, false)),
        s.dict.defines.len() + 2 <= i32::MAX,
    ensures
        ({
            let o1 = func_spec(s, WordFunc::If);
            let o2 = func_spec(o1.core, WordFunc::Then);
            &&& o1.error is None
            &&& o2.error is None
            &&& o2.core.stack == s.stack
            &&& o2.core.dict.defines == s.dict.defines.push(DefineItem::Func(WordFunc::IfRuntime)).push(
                DefineItem::Lit((s.dict.defines.len() + 2) as i32),
            )
        }),
{
    let o1 = func_spec(s, WordFunc::If);
    let len: int = s.dict.defines.len() as int;
    assert(o1.core.stack.last() == (len + 1) as i32);
    assert(o1.core.stack.drop_last() =~= s.stack);
    assert((((len + 1) as i32) as usize) as int == len + 1);
    assert(s.dict.defines.push(DefineItem::Func(WordFunc::IfRuntime)).push(DefineItem::Lit(0)).update(
        len + 1,
        DefineItem::Lit(((len + 2) as usize) as i32),
    ) =~= s.dict.defines.push(DefineItem::Func(WordFunc::IfRuntime)).push(
        DefineItem::Lit((len + 2) as i32),
    ));
}

/// Running a conditional branch whose target is `t`: on 0 control goes to
/// `t`; on anything else it goes past the target's cell.
pub proof fn law_conditional_branch(s: CoreView, t: i32)
    requires
        s.frames.len() > 0,
        s.stack.len() > 0,
        s.ip + 1 < s.dict.defines.len(),
        s.dict.defines.len() <= usize::MAX,
        s.dict.defines[s.ip as int] == DefineItem::Func(WordFunc::IfRuntime),
        s.dict.defines[s.ip + 1] == DefineItem::Lit(t),
        t > 0,
    ensures
        colon_step(s).error is None,
        colon_step(s).core.stack == s.stack.drop_last(),
        colon_step(s).core.ip == if s.stack.last() == 0 {
            t as int
        } else {
            s.ip + 2
        },
{
    let st = s.stack;
    let s1 = with_stack(s, st.drop_last());
    let o = func_spec(s, WordFunc::IfRuntime);
    assert(lit_at(with_ip(s1, (s.ip + 1) as usize), s.ip + 1) == Ok::<i32, AbortView>(t));
    assert((((t - 1) as int) as usize) as int == t - 1);
    assert(o.error is None);
    assert(colon_step(s) == then_resume(o, Resume::Next));
}

/// The values of the tokens in `text`, in the order in which they are read
/// (the last token first).
pub open spec fn values_read(text: Seq<Seq<char>>) -> Seq<i32>
    decreases text.len(),
{
    if text.len() == 0 {
        Seq::empty()
    } else {
        seq![parse_i32_spec(text.last())->0] + values_read(text.drop_last())
    }
}

/// Interpreting a text of numbers that are not names of words pushes them
/// in the order they are read, uses up the text, and ends `Idle`.
pub proof fn law_numbers_are_pushed(s: CoreView, n: nat)
    requires
        s.awaiting is None,
        s.frames.len() == 0,
        s.state == CoreState::Normal,
        forall|i: int|
            0 <= i < s.text.len() ==> parse_i32_spec(#[trigger] s.text[i]) is Some && lookup(
                s.dict.words,
                s.text[i],
            ) is None,
        n > s.text.len(),
    ensures
        run_spec(s, n).0.error is None,
        run_spec(s, n).1 == RunStatus::Idle,
        run_spec(s, n).0.core == (CoreView {
            stack: s.stack + values_read(s.text),
            text: Seq::empty(),
            ..s
        }),
    decreases s.text.len(),
{
    if s.text.len() == 0 {
        assert(step_spec(s) == (ok(s), StepStatus::Idle)) by {
            reveal(step_spec);
        }
        assert(s.stack + values_read(s.text) =~= s.stack);
        assert(s.text =~= Seq::<Seq<char>>::empty());
    } else {
        let t = s.text.last();
        let v = parse_i32_spec(t)->0;
        let s0 = CoreView { text: s.text.drop_last(), ..s };
        let s1 = CoreView { text: s.text.drop_last(), stack: s.stack.push(v), ..s };
        assert(step_spec(s) == (parse_word_spec(s0, t), StepStatus::Progress)) by {
            reveal(step_spec);
        }
        assert(lookup(s.dict.words, s.text[s.text.len() - 1]) is None);
        assert(parse_word_spec(s0, t) == ok(s1));
        assert forall|i: int| 0 <= i < s1.text.len() implies parse_i32_spec(#[trigger] s1.text[i]) is Some
            && lookup(s1.dict.words, s1.text[i]) is None by {
            assert(s1.text[i] == s.text[i]);
        }
        law_numbers_are_pushed(s1, (n - 1) as nat);
        assert(s.stack.push(v) + values_read(s.text.drop_last()) =~= s.stack + values_read(s.text));
    }
}

} // verus!
