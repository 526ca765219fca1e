use vstd::prelude::*;

use crate::dictionary::{
    created_word, find_pos, insert_word, lookup, law_lookup_after_insert, lemma_update_same_name, DefineItem,
    DictView, Dictionary,
};
use crate::arith_laws::{law_const_takes_value, law_var_makes_cell};
use crate::error::ForthError;
use crate::output::{outputs_view, CoreSnapshot, Output, OutputView};
use crate::primv::Primv;
use crate::semantics::{
    body_run_spec, call_spec, colon_step, compile_spec, finish_name, func_spec, immediate_spec, initial_core,
    insert_all, last_entry, lit_at, load_line, outcome_matches, parse_word_spec, prim_word,
    primitive_table, request_name, resume_spec, run_spec, snapshot, status_matches, step_spec,
    update_last, with_defines, with_output, with_stack, BodyStatus, CoreView, NameFor, Resume, RunStatus,
    StepStatus,
};
use crate::stack::Stack;
use crate::text::{parse_i32, split_whitespace, split_ws, strings_view};
use crate::word::{ForthWord, WordFunc, WordType, WordView};

verus! {

/// Whether the interpreter runs words or compiles them into a definition.
#[derive(Clone, Copy, Debug, PartialEq, Eq, Structural)]
pub enum CoreState {
    Normal,
    Custom,
}

/// The interpreter: a data stack, a dictionary, a return stack, the tokens
/// not yet read, and the state of the colon definitions being run.
#[derive(Debug)]
pub struct ForthCore {
    stack: Stack,
    words: Dictionary,
    state: CoreState,
    return_stack: Vec<usize>,
    text: Vec<String>,
    ip: usize,
    frames: Vec<Resume>,
    awaiting: Option<(NameFor, Resume)>,
    output: Vec<Output>,
}

impl View for ForthCore {
    type V = CoreView;

    closed spec fn view(&self) -> CoreView {
        CoreView {
            stack: self.stack@,
            dict: self.words@,
            state: self.state,
            return_stack: self.return_stack@,
            text: strings_view(self.text@),
            ip: self.ip,
            frames: self.frames@,
            awaiting: self.awaiting,
            output: outputs_view(self.output@),
        }
    }
}

impl ForthCore {
    /// Gives `o` to the user.
    pub(crate) fn put(&mut self, o: Output)
        ensures
            final(self)@ == with_output(old(self)@, o@),
    {
        let ghost before = outputs_view(self.output@);
        self.output.push(o);
        proof {
            assert(outputs_view(self.output@) =~= before.push(o@));
        }
    }

    /// Puts `d` on the data stack.
    pub fn push(&mut self, d: i32)
        ensures
            final(self)@ == with_stack(old(self)@, old(self)@.stack.push(d)),
    {
        self.stack.push(d);
    }

    /// Takes the top value off the data stack.
    pub fn pop(&mut self) -> (x: i32)
        requires
            old(self)@.stack.len() > 0,
        ensures
            x == old(self)@.stack.last(),
            final(self)@ == with_stack(old(self)@, old(self)@.stack.drop_last()),
    {
        self.stack.pop()
    }

    /// Takes the top value off the data stack, failing where it is empty.
    pub(crate) fn pop_checked(&mut self) -> (r: Result<i32, ForthError>)
        ensures
            old(self)@.stack.len() > 0 ==> r == Ok::<i32, ForthError>(old(self)@.stack.last())
                && final(self)@ == with_stack(old(self)@, old(self)@.stack.drop_last()),
            old(self)@.stack.len() == 0 ==> (r matches Err(ForthError::StackEmpty)) && final(self)@
                == old(self)@ && final(self)@ == with_stack(old(self)@, Seq::empty()),
    {
        if self.stack.len() == 0 {
            proof {
                assert(self@.stack =~= Seq::<i32>::empty());
            }
            Err(ForthError::StackEmpty)
        } else {
            Ok(self.stack.pop())
        }
    }
}

impl ForthCore {
    /// The literal at `pos` of the code space, or why there is none.
    fn lit_at(&mut self, pos: usize) -> (r: Result<i32, ForthError>)
        ensures
            final(self)@ == old(self)@,
            match lit_at(old(self)@, pos as int) {
                Ok(v) => r == Ok::<i32, ForthError>(v),
                Err(e) => r matches Err(x) && x@ == e,
            },
    {
        if pos >= self.words.tod() {
            return Err(ForthError::BadAddress);
        }
        match *self.words.get_define(pos) {
            DefineItem::Lit(_) => Ok(self.words.get_lit(pos)),
            _ => Err(ForthError::NotALiteral),
        }
    }

    /// Compiles a reference to the word named `token`.
    fn compile(&mut self, token: &str) -> (r: Result<(), ForthError>)
        ensures
            outcome_matches(r, final(self)@, compile_spec(old(self)@, token@)),
    {
        match self.words.find(token) {
            Some(w) => match w.wtype {
                WordType::Const | WordType::Var => {
                    return Err(ForthError::WrongWordType);
                },
                _ => {},
            },
            None => {},
        }
        if !self.words.compile(token) {
            self.put(Output::NotFound(String::from_str(token)));
        }
        Ok(())
    }

    /// Appends the literal `val` to the code space.
    fn compile_lit(&mut self, val: i32)
        ensures
            final(self)@ == with_defines(old(self)@, old(self)@.dict.defines.push(DefineItem::Lit(val))),
    {
        self.words.compile_lit(val);
    }

    /// Takes the next token of the text, if there is one.
    fn get_next_token(&mut self) -> (r: Option<String>)
        ensures
            old(self)@.text.len() > 0 ==> (r matches Some(t) && t@ == old(self)@.text.last())
                && final(self)@ == (CoreView { text: old(self)@.text.drop_last(), ..old(self)@ }),
            old(self)@.text.len() == 0 ==> r is None && final(self)@ == old(self)@,
    {
        let ghost before = strings_view(self.text@);
        let r = self.text.pop();
        proof {
            if before.len() > 0 {
                assert(strings_view(self.text@) =~= before.drop_last());
            }
        }
        r
    }

    /// Sends control where `r` says once a behaviour has finished.
    fn resume(&mut self, r: Resume) -> (res: Result<(), ForthError>)
        ensures
            outcome_matches(res, final(self)@, resume_spec(old(self)@, r)),
    {
        match r {
            Resume::Next => match self.ip.checked_add(1) {
                Some(n) => {
                    self.ip = n;
                    Ok(())
                },
                None => Err(ForthError::Overflow),
            },
            _ => Ok(()),
        }
    }

    /// Completes a definition of kind `k` with the name `name`.
    fn finish_name(&mut self, k: NameFor, name: String) -> (r: Result<(), ForthError>)
        ensures
            outcome_matches(r, final(self)@, finish_name(old(self)@, k, name@)),
    {
        let ghost s0 = self@;
        let ghost w = created_word(name@, s0.dict.defines.len());
        proof {
            law_lookup_after_insert(s0.dict.words, w, name@);
        }
        self.words.create_word(name);
        let ghost s1 = self@;
        proof {
            crate::dictionary::lemma_find_pos(s1.dict.words, s1.dict.last_word->0);
            assert(find_pos(s1.dict.words, s1.dict.last_word->0) >= 0);
        }
        match k {
            NameFor::Word => Ok(()),
            NameFor::Create => Ok(()),
            _ => {
                let ghost p = find_pos(s1.dict.words, s1.dict.last_word->0);
                self.words.set_last_func(WordFunc::Const);
                proof {
                    lemma_update_same_name(s1.dict.words, p, WordView { func: WordFunc::Const, ..last_entry(s1) });
                }
                self.words.set_last_type(WordType::Const);
                let ghost s2 = update_last(s1, WordView { func: WordFunc::Const, wtype: WordType::Const, ..last_entry(s1) });
                proof {
                    assert(self@.dict.words =~= s2.dict.words);
                    assert(self@ == s2);
                }
                let v = match self.pop_checked() {
                    Ok(v) => v,
                    Err(e) => return Err(e),
                };
                self.compile_lit(v);
                match k {
                    NameFor::Var => {
                        let ghost s3 = self@;
                        let ghost p3 = find_pos(s3.dict.words, s3.dict.last_word->0);
                        proof {
                            lemma_update_same_name(s1.dict.words, p, WordView { func: WordFunc::Const, wtype: WordType::Const, ..last_entry(s1) });
                        }
                        self.words.set_last_func(WordFunc::Var);
                        proof {
                            lemma_update_same_name(s3.dict.words, p3, WordView { func: WordFunc::Var, ..last_entry(s3) });
                        }
                        self.words.set_last_type(WordType::Var);
                        proof {
                            assert(self@.dict.words =~= update_last(s3, WordView { func: WordFunc::Var, wtype: WordType::Var, ..last_entry(s3) }).dict.words);
                        }
                        Ok(())
                    },
                    _ => Ok(()),
                }
            },
        }
    }

    /// A definition of kind `k` takes the next token as its name, or waits
    /// for one.
    fn request_name(&mut self, k: NameFor, r: Resume) -> (res: Result<(), ForthError>)
        ensures
            outcome_matches(res, final(self)@, request_name(old(self)@, k, r)),
    {
        match self.get_next_token() {
            None => {
                self.awaiting = Some((k, r));
                Ok(())
            },
            Some(t) => {
                match self.finish_name(k, t) {
                    Ok(()) => {},
                    Err(e) => return Err(e),
                }
                self.resume(r)
            },
        }
    }
}

/// The words that define, compile and run words, and that reach the return
/// stack and the code space.
pub trait Vocabulary {
    fn do_const(&mut self) -> Result<(), ForthError>;

    fn do_var(&mut self) -> Result<(), ForthError>;

    fn do_retrive(&mut self) -> Result<(), ForthError>;

    fn do_store(&mut self) -> Result<(), ForthError>;

    fn define_const(&mut self) -> Result<(), ForthError>;

    fn define_var(&mut self) -> Result<(), ForthError>;

    fn define_word(&mut self) -> Result<(), ForthError>;

    fn do_words(&mut self) -> Result<(), ForthError>;

    fn do_core(&mut self) -> Result<(), ForthError>;

    fn end_of_define(&mut self) -> Result<(), ForthError>;

    fn do_create(&mut self) -> Result<(), ForthError>;

    fn do_immediate(&mut self) -> Result<(), ForthError>;

    fn do_colon(&mut self, fuel: u64) -> Result<BodyStatus, ForthError>;

    fn do_exit(&mut self) -> Result<(), ForthError>;

    #[allow(non_snake_case)]
    fn do_toR(&mut self) -> Result<(), ForthError>;

    #[allow(non_snake_case)]
    fn do_fromR(&mut self) -> Result<(), ForthError>;

    fn _if(&mut self) -> Result<(), ForthError>;

    fn _jmp(&mut self) -> Result<(), ForthError>;
}

impl ForthCore {
    /// A copy of what the `core` word shows.
    fn snapshot(&self) -> (snap: CoreSnapshot)
        ensures
            snap@ == snapshot(self@),
    {
        let mut rs: Vec<usize> = Vec::new();
        let n: usize = self.return_stack.len();
        for i in 0..n
            invariant
                n == self.return_stack@.len(),
                rs@ == self.return_stack@.take(i as int),
        {
            rs.push(self.return_stack[i]);
            proof {
                assert(rs@ =~= self.return_stack@.take(i + 1));
            }
        }
        proof {
            assert(self.return_stack@.take(n as int) =~= self.return_stack@);
        }
        let mut text: Vec<String> = Vec::new();
        let m: usize = self.text.len();
        for i in 0..m
            invariant
                m == self.text@.len(),
                text@.len() == i,
                forall|j: int| 0 <= j < i ==> #[trigger] text@[j]@ == self.text@[j]@,
        {
            text.push(self.text[i].clone());
        }
        proof {
            assert(strings_view(text@) =~= strings_view(self.text@));
        }
        CoreSnapshot {
            stack: self.stack.to_vec(),
            defines: self.words.code_space(),
            last_word: self.words.last_word_name(),
            state: self.state,
            return_stack: rs,
            text: text,
            ip: self.ip,
        }
    }

    /// `:` followed by the resumption `r`.
    fn define_word_then(&mut self, r: Resume) -> (res: Result<(), ForthError>)
        ensures
            outcome_matches(res, final(self)@, call_spec(old(self)@, WordFunc::DefineWord, r)),
    {
        self.state = CoreState::Custom;
        self.put(Output::DefiningWord);
        self.request_name(NameFor::Word, r)
    }

    /// `const` followed by the resumption `r`.
    fn define_const_then(&mut self, r: Resume) -> (res: Result<(), ForthError>)
        ensures
            outcome_matches(res, final(self)@, call_spec(old(self)@, WordFunc::DefineConst, r)),
    {
        self.put(Output::DefiningConst);
        self.request_name(NameFor::Const, r)
    }

    /// `var` followed by the resumption `r`.
    fn define_var_then(&mut self, r: Resume) -> (res: Result<(), ForthError>)
        ensures
            outcome_matches(res, final(self)@, call_spec(old(self)@, WordFunc::DefineVar, r)),
    {
        self.push(0);
        self.put(Output::DefiningConst);
        self.request_name(NameFor::Var, r)
    }

    /// `_lit`: pushes the literal in the cell after the current one, and
    /// moves to it.
    fn do_literal(&mut self) -> (r: Result<(), ForthError>)
        ensures
            outcome_matches(r, final(self)@, func_spec(old(self)@, WordFunc::Literal)),
    {
        self.ip = match self.ip.checked_add(1) {
            Some(n) => n,
            None => return Err(ForthError::Overflow),
        };
        let lit = match self.lit_at(self.ip) {
            Ok(v) => v,
            Err(e) => return Err(e),
        };
        self.push(lit);
        Ok(())
    }

    /// `if`: compiles a conditional branch with a placeholder target, and
    /// pushes the placeholder's address.
    fn do_if(&mut self) -> (r: Result<(), ForthError>)
        ensures
            outcome_matches(r, final(self)@, func_spec(old(self)@, WordFunc::If)),
    {
        match self.compile("_if") {
            Ok(()) => {},
            Err(e) => return Err(e),
        }
        let pholder = self.words.tod();
        self.compile_lit(0);
        self.push(pholder as i32);
        Ok(())
    }

    /// `else`: compiles an unconditional branch with a placeholder target,
    /// points the pending `if` here, and pushes the new placeholder's
    /// address.
    fn do_else(&mut self) -> (r: Result<(), ForthError>)
        ensures
            outcome_matches(r, final(self)@, func_spec(old(self)@, WordFunc::Else)),
    {
        match self.compile("_jmp") {
            Ok(()) => {},
            Err(e) => return Err(e),
        }
        let pholder_else = self.words.tod();
        self.compile_lit(0);
        let pholder = match self.pop_checked() {
            Ok(v) => v as usize,
            Err(e) => return Err(e),
        };
        let else_pos = self.words.tod();
        if pholder >= else_pos {
            return Err(ForthError::BadAddress);
        }
        self.words.put_lit(pholder, else_pos);
        self.push(pholder_else as i32);
        Ok(())
    }

    /// `then`: points the pending branch here.
    fn do_then(&mut self) -> (r: Result<(), ForthError>)
        ensures
            outcome_matches(r, final(self)@, func_spec(old(self)@, WordFunc::Then)),
    {
        let pholder = match self.pop_checked() {
            Ok(v) => v as usize,
            Err(e) => return Err(e),
        };
        let then_pos = self.words.tod();
        if pholder >= then_pos {
            return Err(ForthError::BadAddress);
        }
        self.words.put_lit(pholder, then_pos);
        Ok(())
    }
}

impl Vocabulary for ForthCore {
    /// `const`: announces a constant and defines it with the next token as
    /// its name and the top of the stack as its value.
    fn define_const(&mut self) -> (r: Result<(), ForthError>)
        ensures
            outcome_matches(r, final(self)@, call_spec(old(self)@, WordFunc::DefineConst, Resume::Top)),
            ({
                let s = old(self)@;
                let len = s.dict.defines.len();
                s.stack.len() >= 1 && s.text.len() >= 1 ==> r is Ok && final(self)@.stack
                    == s.stack.drop_last() && final(self)@.dict.defines == s.dict.defines.push(
                    DefineItem::Lit(s.stack.last()),
                ) && lookup(final(self)@.dict.words, s.text.last()) == Some(
                    WordView { func: WordFunc::Const, wtype: WordType::Const, ..created_word(s.text.last(), len) },
                )
            }),
    {
        proof {
            if self@.stack.len() >= 1 && self@.text.len() >= 1 {
                law_const_takes_value(self@, Resume::Top);
            }
        }
        self.define_const_then(Resume::Top)
    }

    /// `var`: defines a variable with the next token as its name.
    fn define_var(&mut self) -> (r: Result<(), ForthError>)
        ensures
            outcome_matches(r, final(self)@, call_spec(old(self)@, WordFunc::DefineVar, Resume::Top)),
            ({
                let s = old(self)@;
                let len = s.dict.defines.len();
                s.text.len() >= 1 ==> r is Ok && final(self)@.stack == s.stack && final(self)@.dict.defines
                    == s.dict.defines.push(DefineItem::Lit(0)) && lookup(final(self)@.dict.words, s.text.last())
                    == Some(WordView { func: WordFunc::Var, wtype: WordType::Var, ..created_word(s.text.last(), len) })
            }),
    {
        proof {
            if self@.text.len() >= 1 {
                law_var_makes_cell(self@, Resume::Top);
            }
        }
        self.define_var_then(Resume::Top)
    }

    /// `:`: starts compiling a colon definition named by the next token.
    fn define_word(&mut self) -> (r: Result<(), ForthError>)
        ensures
            outcome_matches(r, final(self)@, call_spec(old(self)@, WordFunc::DefineWord, Resume::Top)),
    {
        self.define_word_then(Resume::Top)
    }

    /// `words`: lists the dictionary.
    fn do_words(&mut self) -> (r: Result<(), ForthError>)
        ensures
            outcome_matches(r, final(self)@, func_spec(old(self)@, WordFunc::Words)),
    {
        let ws = self.words.list_words();
        self.put(Output::WordList(ws));
        Ok(())
    }

    /// `core`: shows the interpreter's state.
    fn do_core(&mut self) -> (r: Result<(), ForthError>)
        ensures
            outcome_matches(r, final(self)@, func_spec(old(self)@, WordFunc::Core)),
    {
        let snap = self.snapshot();
        self.put(Output::CoreDump(snap));
        Ok(())
    }

    /// `>R`: moves the top of the data stack to the return stack.
    #[allow(non_snake_case)]
    fn do_toR(&mut self) -> (r: Result<(), ForthError>)
        ensures
            outcome_matches(r, final(self)@, func_spec(old(self)@, WordFunc::ToR)),
    {
        let v = match self.pop_checked() {
            Ok(v) => v as usize,
            Err(e) => return Err(e),
        };
        self.return_stack.push(v);
        Ok(())
    }

    /// `R@`: moves the top of the return stack to the data stack.
    #[allow(non_snake_case)]
    fn do_fromR(&mut self) -> (r: Result<(), ForthError>)
        ensures
            outcome_matches(r, final(self)@, func_spec(old(self)@, WordFunc::FromR)),
    {
        let v = match self.return_stack.pop() {
            Some(v) => v as i32,
            None => return Err(ForthError::ReturnStackEmpty),
        };
        self.push(v);
        Ok(())
    }

    /// `;`: ends compilation, compiling `exit`.
    fn end_of_define(&mut self) -> (r: Result<(), ForthError>)
        ensures
            outcome_matches(r, final(self)@, func_spec(old(self)@, WordFunc::EndOfDefine)),
    {
        self.state = CoreState::Normal;
        self.compile("exit")
    }

    /// Marks the entry created last as immediate.
    fn do_immediate(&mut self) -> (r: Result<(), ForthError>)
        ensures
            outcome_matches(r, final(self)@, immediate_spec(old(self)@)),
    {
        if !self.words.has_last_word() {
            return Err(ForthError::NoLastWord);
        }
        self.words.set_last_immediate();
        Ok(())
    }

    /// `create`: creates an entry named by the next token.
    fn do_create(&mut self) -> (r: Result<(), ForthError>)
        ensures
            outcome_matches(r, final(self)@, call_spec(old(self)@, WordFunc::Create, Resume::Top)),
    {
        self.request_name(NameFor::Create, Resume::Top)
    }

    /// `exit`: returns to the address on top of the return stack, if any.
    fn do_exit(&mut self) -> (r: Result<(), ForthError>)
        ensures
            outcome_matches(r, final(self)@, func_spec(old(self)@, WordFunc::Exit)),
    {
        match self.return_stack.pop() {
            Some(n) => self.ip = n,
            None => {},
        }
        Ok(())
    }

    /// Run time of a constant: pushes the literal at the instruction
    /// pointer.
    fn do_const(&mut self) -> (r: Result<(), ForthError>)
        ensures
            outcome_matches(r, final(self)@, func_spec(old(self)@, WordFunc::Const)),
    {
        let value = match self.lit_at(self.ip) {
            Ok(v) => v,
            Err(e) => return Err(e),
        };
        self.push(value);
        Ok(())
    }

    /// Run time of a variable: pushes the instruction pointer, its address.
    fn do_var(&mut self) -> (r: Result<(), ForthError>)
        ensures
            outcome_matches(r, final(self)@, func_spec(old(self)@, WordFunc::Var)),
    {
        self.push(self.ip as i32);
        Ok(())
    }

    /// `!`: stores the second value into the code space at the address on
    /// top.
    fn do_store(&mut self) -> (r: Result<(), ForthError>)
        ensures
            outcome_matches(r, final(self)@, func_spec(old(self)@, WordFunc::Store)),
    {
        let ghost st = self@.stack;
        let v_pos = match self.pop_checked() {
            Ok(v) => v as usize,
            Err(e) => return Err(e),
        };
        let val = match self.pop_checked() {
            Ok(v) => v,
            Err(e) => {
                proof {
                    assert(st.drop_last() =~= Seq::<i32>::empty());
                }
                return Err(e);
            },
        };
        proof {
            assert(st.drop_last().drop_last() =~= st.take(st.len() - 2));
        }
        if v_pos >= self.words.tod() {
            return Err(ForthError::BadAddress);
        }
        self.words.put_lit(v_pos, val as usize);
        Ok(())
    }

    /// `@`: replaces the address on top by the literal stored there.
    fn do_retrive(&mut self) -> (r: Result<(), ForthError>)
        ensures
            outcome_matches(r, final(self)@, func_spec(old(self)@, WordFunc::Retrieve)),
    {
        let v_pos = match self.pop_checked() {
            Ok(v) => v as usize,
            Err(e) => return Err(e),
        };
        let val = match self.lit_at(v_pos) {
            Ok(v) => v,
            Err(e) => return Err(e),
        };
        self.push(val);
        Ok(())
    }

    /// `_if`: where the top of the stack is 0, jumps to the target in the
    /// next cell; else skips that cell.
    fn _if(&mut self) -> (r: Result<(), ForthError>)
        ensures
            outcome_matches(r, final(self)@, func_spec(old(self)@, WordFunc::IfRuntime)),
    {
        let x = match self.pop_checked() {
            Ok(v) => v,
            Err(e) => return Err(e),
        };
        let next = match self.ip.checked_add(1) {
            Some(n) => n,
            None => return Err(ForthError::Overflow),
        };
        self.ip = next;
        if x == 0 {
            let then_pos = match self.lit_at(self.ip) {
                Ok(v) => v,
                Err(e) => return Err(e),
            };
            match then_pos.checked_sub(1) {
                Some(t) => {
                    self.ip = t as usize;
                    Ok(())
                },
                None => Err(ForthError::Overflow),
            }
        } else {
            Ok(())
        }
    }

    /// `_jmp`: jumps to the target in the next cell.
    fn _jmp(&mut self) -> (r: Result<(), ForthError>)
        ensures
            outcome_matches(r, final(self)@, func_spec(old(self)@, WordFunc::Jmp)),
    {
        self.ip = match self.ip.checked_add(1) {
            Some(n) => n,
            None => return Err(ForthError::Overflow),
        };
        let then_pos = match self.lit_at(self.ip) {
            Ok(v) => v,
            Err(e) => return Err(e),
        };
        match then_pos.checked_sub(1) {
            Some(t) => {
                self.ip = t as usize;
                Ok(())
            },
            None => Err(ForthError::Overflow),
        }
    }

    /// Run time of a colon definition: runs its body, from the instruction
    /// pointer, for at most `fuel` steps: until it ends at its `exit`
    /// (`Ended`), a definition in it waits for its name where the text is
    /// used up (`NeedName`), the steps run out (`OutOfFuel`), or a fault
    /// ends the session (`Err`). Where it stops early, `interpret` goes on.
    fn do_colon(&mut self, fuel: u64) -> (r: Result<BodyStatus, ForthError>)
        ensures
            ({
                let s1 = call_spec(old(self)@, WordFunc::Colon, Resume::Top).core;
                let d = old(self)@.frames.len();
                status_matches(
                    r,
                    final(self)@,
                    body_run_spec(s1, d, fuel as nat).0,
                    body_run_spec(s1, d, fuel as nat).1,
                )
            }),
    {
        let depth = self.frames.len();
        self.enter_colon(Resume::Top);
        let ghost s1 = self@;
        let mut left: u64 = fuel;
        loop
            invariant
                body_run_spec(self@, depth as nat, left as nat) == body_run_spec(s1, depth as nat, fuel as nat),
                s1 == call_spec(old(self)@, WordFunc::Colon, Resume::Top).core,
                depth == old(self)@.frames.len(),
            decreases left,
        {
            if self.frames.len() <= depth && self.awaiting.is_none() {
                return Ok(BodyStatus::Ended);
            }
            if left == 0 {
                return Ok(BodyStatus::OutOfFuel);
            }
            match self.step() {
                Err(e) => return Err(e),
                Ok(StepStatus::Idle) => return Ok(BodyStatus::Ended),
                Ok(StepStatus::NeedName) => return Ok(BodyStatus::NeedName),
                Ok(StepStatus::Progress) => {},
            }
            left = left - 1;
        }
    }
}

impl ForthCore {
    /// Starts running a colon definition, with control going to `r` when it
    /// ends.
    fn enter_colon(&mut self, r: Resume)
        ensures
            final(self)@ == call_spec(old(self)@, WordFunc::Colon, r).core,
    {
        self.frames.push(r);
    }

    /// Enters one primitive word.
    fn add_inner_word(&mut self, name: &str, func: WordFunc, immediate: bool)
        ensures
            final(self)@ == (CoreView {
                dict: DictView {
                    words: insert_word(old(self)@.dict.words, prim_word(name@, func, immediate)),
                    ..old(self)@.dict
                },
                ..old(self)@
            }),
    {
        let word = ForthWord {
            name: String::from_str(name),
            func: func,
            wtype: WordType::Primv,
            immediate: immediate,
            define_ptr: 999,
        };
        self.words.create_primv_word(word);
    }

    /// Enters the primitive words.
    fn init_dict(&mut self)
        ensures
            final(self)@ == (CoreView {
                dict: DictView {
                    words: insert_all(old(self)@.dict.words, primitive_table()),
                    ..old(self)@.dict
                },
                ..old(self)@
            }),
    {
        let table: Vec<(&str, WordFunc, bool)> = vec![
            ("swap", WordFunc::Swap, false),
            (".", WordFunc::Disp, false),
            ("*", WordFunc::Mul, false),
            ("/", WordFunc::Div, false),
            ("*/", WordFunc::MulDiv, false),
            ("dup", WordFunc::Dup, false),
            ("exit", WordFunc::Exit, false),
            ("=", WordFunc::Eq, false),
            (":", WordFunc::DefineWord, false),
            ("create", WordFunc::Create, true),
            (";", WordFunc::EndOfDefine, true),
            ("emit", WordFunc::Emit, false),
            ("cr", WordFunc::Cr, false),
            ("const", WordFunc::DefineConst, false),
            ("var", WordFunc::DefineVar, false),
            ("_lit", WordFunc::Literal, false),
            ("words", WordFunc::Words, false),
            ("core", WordFunc::Core, false),
            (">R", WordFunc::ToR, false),
            ("R@", WordFunc::FromR, false),
            ("@", WordFunc::Retrieve, false),
            ("!", WordFunc::Store, false),
            ("if", WordFunc::If, true),
            ("then", WordFunc::Then, true),
            ("endif", WordFunc::Then, true),
            ("else", WordFunc::Else, true),
            ("_if", WordFunc::IfRuntime, false),
            ("_jmp", WordFunc::Jmp, false),
        ];
        let ghost t = table@.map_values(|e: (&str, WordFunc, bool)| (e.0@, e.1, e.2));
        proof {
            assert(t =~= primitive_table());
        }
        let ghost s0 = self@;
        let n: usize = table.len();
        for i in 0..n
            invariant
                n == table@.len(),
                t == table@.map_values(|e: (&str, WordFunc, bool)| (e.0@, e.1, e.2)),
                self@ == (CoreView {
                    dict: DictView { words: insert_all(s0.dict.words, t.take(i as int)), ..s0.dict },
                    ..s0
                }),
        {
            let e = table[i];
            self.add_inner_word(e.0, e.1, e.2);
            proof {
                assert(t.take(i + 1).drop_last() =~= t.take(i as int));
                assert(t.take(i + 1).last() == t[i as int]);
            }
        }
        proof {
            assert(t.take(n as int) =~= t);
        }
    }

    /// A new interpreter: empty stacks and code space, the primitive words,
    /// and no text.
    pub fn new() -> (core: Self)
        ensures
            core@ == initial_core(),
    {
        let mut core = ForthCore {
            stack: Stack::new(),
            words: Dictionary::new(),
            state: CoreState::Normal,
            return_stack: Vec::new(),
            text: vec![],
            ip: 99999,
            frames: Vec::new(),
            awaiting: None,
            output: Vec::new(),
        };
        proof {
            assert(strings_view(core.text@) =~= Seq::<Seq<char>>::empty());
            assert(outputs_view(core.output@) =~= Seq::<OutputView>::empty());
        }
        core.init_dict();
        core
    }
}

impl ForthCore {
    /// Runs a behaviour that neither waits for a name nor runs a colon
    /// definition.
    fn run_func(&mut self, f: WordFunc) -> (r: Result<(), ForthError>)
        ensures
            outcome_matches(r, final(self)@, func_spec(old(self)@, f)),
    {
        match f {
            WordFunc::Swap => self.swap(),
            WordFunc::Disp => self.disp(),
            WordFunc::Mul => self.mul(),
            WordFunc::Div => self.div(),
            WordFunc::MulDiv => self.muldiv(),
            WordFunc::Dup => self.dup(),
            WordFunc::Exit => self.do_exit(),
            WordFunc::Eq => Primv::eq(self),
            WordFunc::EndOfDefine => self.end_of_define(),
            WordFunc::Emit => Primv::emit(self),
            WordFunc::Cr => self.cr(),
            WordFunc::Literal => self.do_literal(),
            WordFunc::Words => self.do_words(),
            WordFunc::Core => self.do_core(),
            WordFunc::ToR => self.do_toR(),
            WordFunc::FromR => self.do_fromR(),
            WordFunc::Retrieve => self.do_retrive(),
            WordFunc::Store => self.do_store(),
            WordFunc::If => self.do_if(),
            WordFunc::Then => self.do_then(),
            WordFunc::Else => self.do_else(),
            WordFunc::IfRuntime => self._if(),
            WordFunc::Jmp => self._jmp(),
            WordFunc::Const => self.do_const(),
            WordFunc::Var => self.do_var(),
            _ => Ok(()),
        }
    }

    /// Runs the behaviour `f`, with control going to `r` afterwards.
    fn call(&mut self, f: WordFunc, r: Resume) -> (res: Result<(), ForthError>)
        ensures
            outcome_matches(res, final(self)@, call_spec(old(self)@, f, r)),
    {
        match f {
            WordFunc::DefineWord => self.define_word_then(r),
            WordFunc::Create => self.request_name(NameFor::Create, r),
            WordFunc::DefineConst => self.define_const_then(r),
            WordFunc::DefineVar => self.define_var_then(r),
            WordFunc::Colon => {
                self.enter_colon(r);
                Ok(())
            },
            _ => {
                match self.run_func(f) {
                    Ok(()) => {},
                    Err(e) => return Err(e),
                }
                self.resume(r)
            },
        }
    }

    /// Runs one cell of the innermost colon definition being run.
    fn colon_step(&mut self) -> (r: Result<(), ForthError>)
        requires
            old(self)@.frames.len() > 0,
        ensures
            outcome_matches(r, final(self)@, colon_step(old(self)@)),
    {
        let len = self.words.get_define_len();
        if self.ip >= len {
            return Err(ForthError::BadAddress);
        }
        match *self.words.get_define(self.ip) {
            DefineItem::Lit(_) => {
                self.ip = self.ip + 1;
                Ok(())
            },
            DefineItem::Func(f) => {
                if f == WordFunc::Exit {
                    match self.do_exit() {
                        Ok(()) => {},
                        Err(e) => return Err(e),
                    }
                    let r = match self.frames.pop() {
                        Some(r) => r,
                        None => {
                            proof {
                                assert(false);
                            }
                            Resume::Top
                        },
                    };
                    self.resume(r)
                } else {
                    self.call(f, Resume::Next)
                }
            },
            DefineItem::Addr(a) => {
                self.return_stack.push(self.ip + 1);
                self.ip = a;
                if a >= len {
                    return Err(ForthError::BadAddress);
                }
                match *self.words.get_define(a) {
                    DefineItem::Func(g) => {
                        self.ip = a + 1;
                        self.call(g, Resume::Here)
                    },
                    _ => Ok(()),
                }
            },
        }
    }

    /// Whether the interpreter runs words or compiles them.
    fn get_state(&self) -> (st: CoreState)
        ensures
            st == self@.state,
    {
        self.state
    }

    /// Interprets the token `token`.
    fn parse_word(&mut self, token: &str) -> (r: Result<(), ForthError>)
        ensures
            outcome_matches(r, final(self)@, parse_word_spec(old(self)@, token@)),
    {
        let found = match self.words.find(token) {
            Some(w) => Some((w.func, w.immediate, w.define_ptr)),
            None => None,
        };
        match found {
            Some((func, immediate, define_ptr)) => match self.get_state() {
                CoreState::Normal => {
                    self.ip = match define_ptr.checked_add(1) {
                        Some(n) => n,
                        None => return Err(ForthError::Overflow),
                    };
                    self.call(func, Resume::Top)
                },
                CoreState::Custom => {
                    if immediate {
                        self.ip = define_ptr;
                        self.call(func, Resume::Top)
                    } else {
                        self.compile(token)
                    }
                },
            },
            None => match self.get_state() {
                CoreState::Normal => match parse_i32(token) {
                    Some(n) => {
                        self.push(n);
                        Ok(())
                    },
                    None => {
                        self.put(Output::UnknownWord(String::from_str(token)));
                        Ok(())
                    },
                },
                CoreState::Custom => match parse_i32(token) {
                    Some(n) => {
                        match self.compile("_lit") {
                            Ok(()) => {},
                            Err(e) => return Err(e),
                        }
                        self.compile_lit(n);
                        Ok(())
                    },
                    None => Err(ForthError::UndefinedInDefinition(String::from_str(token))),
                },
            },
        }
    }

    /// One step of interpretation: a waiting definition takes its name;
    /// else a cell of the running colon definition is run; else the next
    /// token is interpreted.
    pub fn step(&mut self) -> (r: Result<StepStatus, ForthError>)
        ensures
            status_matches(r, final(self)@, step_spec(old(self)@).0, step_spec(old(self)@).1),
    {
        reveal(step_spec);
        match self.awaiting {
            Some((k, r)) => match self.get_next_token() {
                None => Ok(StepStatus::NeedName),
                Some(t) => {
                    self.awaiting = None;
                    match self.finish_name(k, t) {
                        Ok(()) => {},
                        Err(e) => return Err(e),
                    }
                    match self.resume(r) {
                        Ok(()) => Ok(StepStatus::Progress),
                        Err(e) => Err(e),
                    }
                },
            },
            None => {
                if self.frames.len() > 0 {
                    match self.colon_step() {
                        Ok(()) => Ok(StepStatus::Progress),
                        Err(e) => Err(e),
                    }
                } else {
                    match self.get_next_token() {
                        None => Ok(StepStatus::Idle),
                        Some(t) => match self.parse_word(&t) {
                            Ok(()) => Ok(StepStatus::Progress),
                            Err(e) => Err(e),
                        },
                    }
                }
            },
        }
    }

    /// Interprets the text for at most `fuel` steps: until the text is used
    /// up (`Idle`), a definition waits for its name (`NeedName`), the steps
    /// run out (`OutOfFuel`), or a fault ends the session (`Err`).
    pub fn interpret(&mut self, fuel: u64) -> (r: Result<RunStatus, ForthError>)
        ensures
            status_matches(r, final(self)@, run_spec(old(self)@, fuel as nat).0, run_spec(old(self)@, fuel as nat).1),
    {
        let ghost s0 = self@;
        let mut left: u64 = fuel;
        while left > 0
            invariant
                run_spec(self@, left as nat) == run_spec(s0, fuel as nat),
                s0 == old(self)@,
            decreases left,
        {
            let ghost before = self@;
            proof {
                assert(run_spec(before, left as nat) == ({
                    let (o, st) = step_spec(before);
                    if o.error is Some {
                        (o, RunStatus::OutOfFuel)
                    } else {
                        match st {
                            StepStatus::Idle => (o, RunStatus::Idle),
                            StepStatus::NeedName => (o, RunStatus::NeedName),
                            StepStatus::Progress => run_spec(o.core, (left - 1) as nat),
                        }
                    }
                }));
            }
            match self.step() {
                Err(e) => return Err(e),
                Ok(StepStatus::Idle) => return Ok(RunStatus::Idle),
                Ok(StepStatus::NeedName) => return Ok(RunStatus::NeedName),
                Ok(StepStatus::Progress) => {},
            }
            left = left - 1;
        }
        Ok(RunStatus::OutOfFuel)
    }

    /// Replaces the text by the tokens of `line`; gives their number.
    pub fn load_line(&mut self, line: &str) -> (n: usize)
        ensures
            final(self)@ == load_line(old(self)@, line@),
            n == split_ws(line@).len(),
    {
        let mut tokens = split_whitespace(line);
        let ghost all = strings_view(tokens@);
        let n = tokens.len();
        let mut text: Vec<String> = Vec::new();
        while tokens.len() > 0
            invariant
                all.len() == n,
                tokens@.len() + text@.len() == n,
                forall|j: int| 0 <= j < tokens@.len() ==> #[trigger] tokens@[j]@ == all[j],
                forall|j: int| 0 <= j < text@.len() ==> #[trigger] text@[j]@ == all[n - 1 - j],
            decreases tokens@.len(),
        {
            match tokens.pop() {
                Some(t) => text.push(t),
                None => {},
            }
        }
        proof {
            assert(strings_view(text@) =~= all.reverse());
        }
        self.text = text;
        n
    }

    /// Interprets `input` for at most `fuel` steps, as `interpret` does,
    /// after replacing the text by its tokens.
    pub fn interpret2(&mut self, input: &str, fuel: u64) -> (r: Result<RunStatus, ForthError>)
        ensures
            ({
                let s1 = load_line(old(self)@, input@);
                status_matches(r, final(self)@, run_spec(s1, fuel as nat).0, run_spec(s1, fuel as nat).1)
            }),
    {
        self.load_line(input);
        self.interpret(fuel)
    }

    /// Hands over what the interpreter has given to the user to see, and
    /// forgets it.
    pub fn take_output(&mut self) -> (out: Vec<Output>)
        ensures
            outputs_view(out@) == old(self)@.output,
            final(self)@ == (CoreView { output: Seq::empty(), ..old(self)@ }),
    {
        let mut out: Vec<Output> = Vec::new();
        std::mem::swap(&mut out, &mut self.output);
        proof {
            assert(outputs_view(self.output@) =~= Seq::<OutputView>::empty());
        }
        out
    }

    /// A copy of the data stack, bottom first.
    pub fn stack_values(&self) -> (v: Vec<i32>)
        ensures
            v@ == self@.stack,
    {
        self.stack.to_vec()
    }

    /// The code space's length fits in `usize`.
    pub proof fn lemma_code_space_fits(&self)
        ensures
            self@.dict.defines.len() <= usize::MAX,
    {
        self.words.lemma_code_space_fits();
    }

    /// The dictionary.
    pub fn dictionary(&self) -> (d: &Dictionary)
        ensures
            d@ == self@.dict,
    {
        &self.words
    }
}

} // verus!
