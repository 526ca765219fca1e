use vstd::prelude::*;

verus! {

/// What kind of word a dictionary entry is.
#[derive(Clone, Copy, Debug, PartialEq, Eq, Structural)]
pub enum WordType {
    /// A primitive, built into the interpreter.
    Primv,
    /// A colon definition, whose body lies in the code space.
    Dict,
    /// A constant.
    Const,
    /// A variable.
    Var,
}

/// The behaviour a word runs when it executes: each primitive of the
/// interpreter, and the run-time behaviours of colon definitions,
/// constants and variables.
#[derive(Clone, Copy, Debug, PartialEq, Eq, Structural)]
pub enum WordFunc {
    /// `swap`
    Swap,
    /// `.`: print the top of the stack
    Disp,
    /// `*`
    Mul,
    /// `/`
    Div,
    /// `*/`
    MulDiv,
    /// `dup`
    Dup,
    /// `exit`: return from a colon definition
    Exit,
    /// `=`
    Eq,
    /// `:`: start a colon definition
    DefineWord,
    /// `create`: create a dictionary entry from the next token
    Create,
    /// `;`: end a colon definition
    EndOfDefine,
    /// `emit`: print the top of the stack as a character
    Emit,
    /// `cr`: print a newline
    Cr,
    /// `const`: define a constant
    DefineConst,
    /// `var`: define a variable
    DefineVar,
    /// `_lit`: push the literal that follows in the code space
    Literal,
    /// `words`: list the dictionary
    Words,
    /// `core`: show the interpreter's state
    Core,
    /// `>R`: move a value to the return stack
    ToR,
    /// `R@`: move a value from the return stack
    FromR,
    /// `@`: fetch from the code space
    Retrieve,
    /// `!`: store into the code space
    Store,
    /// `if` (compile time)
    If,
    /// `then` and `endif` (compile time)
    Then,
    /// `else` (compile time)
    Else,
    /// `_if`: conditional branch (run time)
    IfRuntime,
    /// `_jmp`: unconditional branch (run time)
    Jmp,
    /// run time of a colon definition
    Colon,
    /// run time of a constant
    Const,
    /// run time of a variable
    Var,
}

/// A dictionary entry.
#[derive(Clone, Debug)]
pub struct ForthWord {
    pub name: String,
    pub func: WordFunc,
    pub wtype: WordType,
    pub immediate: bool,
    pub define_ptr: usize,
}

/// The mathematical value of a dictionary entry.
pub struct WordView {
    pub name: Seq<char>,
    pub func: WordFunc,
    pub wtype: WordType,
    pub immediate: bool,
    pub define_ptr: usize,
}

impl View for ForthWord {
    type V = WordView;

    open spec fn view(&self) -> WordView {
        WordView {
            name: self.name@,
            func: self.func,
            wtype: self.wtype,
            immediate: self.immediate,
            define_ptr: self.define_ptr,
        }
    }
}

impl ForthWord {
    /// A copy of this entry.
    pub fn duplicate(&self) -> (w: ForthWord)
        ensures
            w@ == self@,
    {
        ForthWord {
            name: self.name.clone(),
            func: self.func,
            wtype: self.wtype,
            immediate: self.immediate,
            define_ptr: self.define_ptr,
        }
    }
}

} // verus!
