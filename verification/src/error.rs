use vstd::prelude::*;

verus! {

/// Why the interpreter stopped: each of these ends a session, as a fault of
/// the program being interpreted.
#[derive(Debug)]
pub enum ForthError {
    /// A value was taken from an empty data stack.
    StackEmpty,
    /// A value was taken from an empty return stack by `R@`.
    ReturnStackEmpty,
    /// `/` or `*/` divided by zero.
    DivideByZero,
    /// An `i32` or address computation left its range.
    Overflow,
    /// An address outside the code space was read or written.
    BadAddress,
    /// A literal was read from a cell of the code space that holds none.
    NotALiteral,
    /// A constant or a variable was named inside a colon definition.
    WrongWordType,
    /// A token that is neither a word nor a number appeared inside a
    /// colon definition.
    UndefinedInDefinition(String),
    /// The entry created last was asked for where there is none.
    NoLastWord,
}

/// The mathematical value of a [`ForthError`].
pub enum AbortView {
    StackEmpty,
    ReturnStackEmpty,
    DivideByZero,
    Overflow,
    BadAddress,
    NotALiteral,
    WrongWordType,
    UndefinedInDefinition(Seq<char>),
    NoLastWord,
}

impl View for ForthError {
    type V = AbortView;

    open spec fn view(&self) -> AbortView {
        match self {
            ForthError::StackEmpty => AbortView::StackEmpty,
            ForthError::ReturnStackEmpty => AbortView::ReturnStackEmpty,
            ForthError::DivideByZero => AbortView::DivideByZero,
            ForthError::Overflow => AbortView::Overflow,
            ForthError::BadAddress => AbortView::BadAddress,
            ForthError::NotALiteral => AbortView::NotALiteral,
            ForthError::WrongWordType => AbortView::WrongWordType,
            ForthError::UndefinedInDefinition(t) => AbortView::UndefinedInDefinition(t@),
            ForthError::NoLastWord => AbortView::NoLastWord,
        }
    }
}

} // verus!
