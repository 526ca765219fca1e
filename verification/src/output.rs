use vstd::prelude::*;

use crate::interpreter::CoreState;
use crate::dictionary::{words_view, DefineItem};
use crate::text::strings_view;
use crate::word::{ForthWord, WordView};

verus! {

/// A copy of the interpreter's state, as the `core` word shows it.
#[derive(Debug)]
pub struct CoreSnapshot {
    pub stack: Vec<i32>,
    pub defines: Vec<DefineItem>,
    pub last_word: Option<String>,
    pub state: CoreState,
    pub return_stack: Vec<usize>,
    pub text: Vec<String>,
    pub ip: usize,
}

/// The mathematical value of a [`CoreSnapshot`].
pub struct SnapshotView {
    pub stack: Seq<i32>,
    pub defines: Seq<DefineItem>,
    pub last_word: Option<Seq<char>>,
    pub state: CoreState,
    pub return_stack: Seq<usize>,
    pub text: Seq<Seq<char>>,
    pub ip: usize,
}

impl View for CoreSnapshot {
    type V = SnapshotView;

    open spec fn view(&self) -> SnapshotView {
        SnapshotView {
            stack: self.stack@,
            defines: self.defines@,
            last_word: match self.last_word {
                Some(s) => Some(s@),
                None => None,
            },
            state: self.state,
            return_stack: self.return_stack@,
            text: strings_view(self.text@),
            ip: self.ip,
        }
    }
}

/// What the interpreter gives its user to see, in order.
#[derive(Debug)]
pub enum Output {
    /// `.` printed a number, followed by a space.
    Number(i32),
    /// `emit` or `cr` printed a character, given by its byte.
    Char(u8),
    /// `const` or `var` announced a definition.
    DefiningConst,
    /// `:` announced a definition.
    DefiningWord,
    /// A token was neither a word nor a number.
    UnknownWord(String),
    /// A word to be compiled was not found.
    NotFound(String),
    /// `words` listed the dictionary.
    WordList(Vec<ForthWord>),
    /// `core` showed the interpreter's state.
    CoreDump(CoreSnapshot),
}

/// The mathematical value of an [`Output`].
pub enum OutputView {
    Number(i32),
    Char(u8),
    DefiningConst,
    DefiningWord,
    UnknownWord(Seq<char>),
    NotFound(Seq<char>),
    WordList(Seq<WordView>),
    CoreDump(SnapshotView),
}

impl View for Output {
    type V = OutputView;

    open spec fn view(&self) -> OutputView {
        match self {
            Output::Number(n) => OutputView::Number(*n),
            Output::Char(c) => OutputView::Char(*c),
            Output::DefiningConst => OutputView::DefiningConst,
            Output::DefiningWord => OutputView::DefiningWord,
            Output::UnknownWord(t) => OutputView::UnknownWord(t@),
            Output::NotFound(t) => OutputView::NotFound(t@),
            Output::WordList(ws) => OutputView::WordList(words_view(ws@)),
            Output::CoreDump(snap) => OutputView::CoreDump(snap@),
        }
    }
}

/// The values of a sequence of outputs.
pub open spec fn outputs_view(v: Seq<Output>) -> Seq<OutputView> {
    v.map_values(|o: Output| o@)
}

} // verus!
