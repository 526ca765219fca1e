use vstd::prelude::*;

use crate::error::ForthError;
use crate::interpreter::ForthCore;
use crate::output::Output;
use crate::arith_laws::{
    is_trunc_quotient, law_div_truncates, law_eq_compares, law_mul_is_product, law_muldiv_scales,
};
use crate::semantics::{div_trunc, func_spec, outcome_matches};
use crate::word::WordFunc;

verus! {

/// The arithmetic, stack and printing primitives.
pub trait Primv {
    fn dup(&mut self) -> Result<(), ForthError>;

    fn swap(&mut self) -> Result<(), ForthError>;

    fn mul(&mut self) -> Result<(), ForthError>;

    fn div(&mut self) -> Result<(), ForthError>;

    fn muldiv(&mut self) -> Result<(), ForthError>;

    fn eq(&mut self) -> Result<(), ForthError>;

    fn disp(&mut self) -> Result<(), ForthError>;

    fn emit(&mut self) -> Result<(), ForthError>;

    fn cr(&mut self) -> Result<(), ForthError>;

    fn eval(&mut self);
}

impl Primv for ForthCore {
    /// `cr`: prints a newline.
    fn cr(&mut self) -> (r: Result<(), ForthError>)
        ensures
            outcome_matches(r, final(self)@, func_spec(old(self)@, WordFunc::Cr)),
    {
        let ghost st = self@.stack;
        self.push(10);
        proof {
            assert(st.push(10).drop_last() =~= st);
        }
        self.emit()
    }

    /// `dup`: duplicates the top of the stack.
    fn dup(&mut self) -> (r: Result<(), ForthError>)
        ensures
            outcome_matches(r, final(self)@, func_spec(old(self)@, WordFunc::Dup)),
    {
        let ghost st = self@.stack;
        let x = match self.pop_checked() {
            Ok(x) => x,
            Err(e) => return Err(e),
        };
        self.push(x);
        self.push(x);
        proof {
            assert(st.drop_last().push(st.last()) =~= st);
        }
        Ok(())
    }

    /// `swap`: takes the top two values off the stack and puts them back
    /// in the order they were in.
    fn swap(&mut self) -> (r: Result<(), ForthError>)
        ensures
            outcome_matches(r, final(self)@, func_spec(old(self)@, WordFunc::Swap)),
    {
        let ghost st = self@.stack;
        let x = match self.pop_checked() {
            Ok(x) => x,
            Err(e) => return Err(e),
        };
        let y = match self.pop_checked() {
            Ok(y) => y,
            Err(e) => {
                proof {
                    assert(st.drop_last() =~= Seq::<i32>::empty());
                }
                return Err(e);
            },
        };
        self.push(y);
        self.push(x);
        proof {
            assert(st.drop_last().drop_last().push(y).push(x) =~= st);
        }
        Ok(())
    }

    /// `*`: replaces the top two values by their product.
    fn mul(&mut self) -> (r: Result<(), ForthError>)
        ensures
            outcome_matches(r, final(self)@, func_spec(old(self)@, WordFunc::Mul)),
            ({
                let st = old(self)@.stack;
                let n = st.len();
                n >= 2 && i32::MIN <= st[n - 2] * st[n - 1] <= i32::MAX ==> r is Ok
                    && final(self)@.stack == st.take(n - 2).push((st[n - 2] * st[n - 1]) as i32)
            }),
    {
        proof {
            let st = self@.stack;
            let n = st.len();
            if n >= 2 && i32::MIN <= st[n - 2] * st[n - 1] <= i32::MAX {
                law_mul_is_product(self@);
                assert(func_spec(self@, WordFunc::Mul).core.stack =~= st.take(n - 2).push(
                    (st[n - 2] * st[n - 1]) as i32,
                ));
            }
        }
        let ghost st = self@.stack;
        let x = match self.pop_checked() {
            Ok(x) => x,
            Err(e) => return Err(e),
        };
        let y = match self.pop_checked() {
            Ok(y) => y,
            Err(e) => {
                proof {
                    assert(st.drop_last() =~= Seq::<i32>::empty());
                }
                return Err(e);
            },
        };
        proof {
            assert(st.drop_last().drop_last() =~= st.take(st.len() - 2));
        }
        match x.checked_mul(y) {
            Some(p) => {
                self.push(p);
                Ok(())
            },
            None => Err(ForthError::Overflow),
        }
    }

    /// `/`: replaces the top two values by the second divided by the top.
    fn div(&mut self) -> (r: Result<(), ForthError>)
        ensures
            outcome_matches(r, final(self)@, func_spec(old(self)@, WordFunc::Div)),
            ({
                let st = old(self)@.stack;
                let n = st.len();
                n >= 2 && st[n - 1] != 0 && !(st[n - 2] == i32::MIN && st[n - 1] == -1) ==> r is Ok
                    && final(self)@.stack.len() == n - 1 && final(self)@.stack.take(n - 2) == st.take(
                    n - 2,
                ) && is_trunc_quotient(st[n - 2] as int, st[n - 1] as int, final(self)@.stack[n - 2] as int)
            }),
    {
        proof {
            let st = self@.stack;
            let n = st.len();
            if n >= 2 && st[n - 1] != 0 && !(st[n - 2] == i32::MIN && st[n - 1] == -1) {
                law_div_truncates(self@);
            }
        }
        let ghost st = self@.stack;
        let x = match self.pop_checked() {
            Ok(x) => x,
            Err(e) => return Err(e),
        };
        let y = match self.pop_checked() {
            Ok(y) => y,
            Err(e) => {
                proof {
                    assert(st.drop_last() =~= Seq::<i32>::empty());
                }
                return Err(e);
            },
        };
        proof {
            assert(st.drop_last().drop_last() =~= st.take(st.len() - 2));
        }
        if x == 0 {
            return Err(ForthError::DivideByZero);
        }
        match y.checked_div(x) {
            Some(q) => {
                self.push(q);
                Ok(())
            },
            None => Err(ForthError::Overflow),
        }
    }

    /// `*/`: replaces the top three values by the third times the second,
    /// divided by the top.
    fn muldiv(&mut self) -> (r: Result<(), ForthError>)
        ensures
            outcome_matches(r, final(self)@, func_spec(old(self)@, WordFunc::MulDiv)),
            ({
                let st = old(self)@.stack;
                let n = st.len();
                let p = st[n - 3] * st[n - 2];
                n >= 3 && i32::MIN <= p <= i32::MAX && st[n - 1] != 0 && !(p == i32::MIN && st[n - 1]
                    == -1) ==> r is Ok && final(self)@.stack.len() == n - 2 && final(self)@.stack.take(
                    n - 3,
                ) == st.take(n - 3) && is_trunc_quotient(p, st[n - 1] as int, final(self)@.stack[n - 3] as int)
            }),
    {
        proof {
            let st = self@.stack;
            let n = st.len();
            let p = st[n - 3] * st[n - 2];
            if n >= 3 && i32::MIN <= p <= i32::MAX && st[n - 1] != 0 && !(p == i32::MIN && st[n - 1] == -1) {
                law_muldiv_scales(self@);
            }
        }
        let ghost st = self@.stack;
        let x = match self.pop_checked() {
            Ok(x) => x,
            Err(e) => return Err(e),
        };
        let y = match self.pop_checked() {
            Ok(y) => y,
            Err(e) => {
                proof {
                    assert(st.drop_last() =~= Seq::<i32>::empty());
                }
                return Err(e);
            },
        };
        let z = match self.pop_checked() {
            Ok(z) => z,
            Err(e) => {
                proof {
                    assert(st.drop_last().drop_last() =~= Seq::<i32>::empty());
                }
                return Err(e);
            },
        };
        proof {
            assert(st.drop_last().drop_last().drop_last() =~= st.take(st.len() - 3));
        }
        let p = match z.checked_mul(y) {
            Some(p) => p,
            None => return Err(ForthError::Overflow),
        };
        if x == 0 {
            return Err(ForthError::DivideByZero);
        }
        match p.checked_div(x) {
            Some(q) => {
                self.push(q);
                Ok(())
            },
            None => Err(ForthError::Overflow),
        }
    }

    /// `=`: replaces the top two values by 1 where they are equal and by 0
    /// where they are not.
    fn eq(&mut self) -> (r: Result<(), ForthError>)
        ensures
            outcome_matches(r, final(self)@, func_spec(old(self)@, WordFunc::Eq)),
            ({
                let st = old(self)@.stack;
                let n = st.len();
                n >= 2 ==> r is Ok && final(self)@.stack == st.take(n - 2).push(
                    if st[n - 2] == st[n - 1] {
                        1i32
                    } else {
                        0i32
                    },
                )
            }),
    {
        proof {
            let st = self@.stack;
            let n = st.len();
            if n >= 2 {
                law_eq_compares(self@);
                assert(func_spec(self@, WordFunc::Eq).core.stack =~= st.take(n - 2).push(
                    if st[n - 2] == st[n - 1] {
                        1i32
                    } else {
                        0i32
                    },
                ));
            }
        }
        let ghost st = self@.stack;
        let x = match self.pop_checked() {
            Ok(x) => x,
            Err(e) => return Err(e),
        };
        let y = match self.pop_checked() {
            Ok(y) => y,
            Err(e) => {
                proof {
                    assert(st.drop_last() =~= Seq::<i32>::empty());
                }
                return Err(e);
            },
        };
        proof {
            assert(st.drop_last().drop_last() =~= st.take(st.len() - 2));
        }
        if x == y {
            self.push(1);
        } else {
            self.push(0);
        }
        Ok(())
    }

    /// `.`: takes the top value off the stack and prints it.
    fn disp(&mut self) -> (r: Result<(), ForthError>)
        ensures
            outcome_matches(r, final(self)@, func_spec(old(self)@, WordFunc::Disp)),
    {
        let x = match self.pop_checked() {
            Ok(x) => x,
            Err(e) => return Err(e),
        };
        self.put(Output::Number(x));
        Ok(())
    }

    /// `emit`: takes the top value off the stack and prints the character
    /// whose byte is its low eight bits.
    fn emit(&mut self) -> (r: Result<(), ForthError>)
        ensures
            outcome_matches(r, final(self)@, func_spec(old(self)@, WordFunc::Emit)),
    {
        let x = match self.pop_checked() {
            Ok(x) => x,
            Err(e) => return Err(e),
        };
        self.put(Output::Char(x as u8));
        Ok(())
    }

    /// Does nothing.
    fn eval(&mut self)
        ensures
            final(self)@ == old(self)@,
    {
    }
}

} // verus!
