//! What the arithmetic words and the definitions of constants and variables
//! do, stated over the integers.
use vstd::arithmetic::div_mod::{lemma_div_nonincreasing, lemma_fundamental_div_mod, lemma_mod_pos_bound};
use vstd::prelude::*;

use crate::dictionary::{
    created_word, find_pos, insert_word, law_lookup_after_insert, lemma_find_pos, lemma_update_same_name,
    lookup, DefineItem,
};
use crate::output::OutputView;
use crate::semantics::{call_spec, div_trunc, func_spec, CoreView, Resume};
use crate::word::{WordFunc, WordType, WordView};

verus! {

/// The absolute value of `a`.
pub open spec fn abs(a: int) -> int {
    if a < 0 {
        -a
    } else {
        a
    }
}

/// `q` is the quotient of `a` by `b` truncated towards zero: the remainder
/// `a - q * b` is smaller than `b` in size and, unless it is 0, has the sign
/// of `a`.
pub open spec fn is_trunc_quotient(a: int, b: int, q: int) -> bool {
    &&& abs(a - q * b) < abs(b)
    &&& (a - q * b == 0 || (a - q * b < 0) == (a < 0))
}

/// Truncating division gives the truncated quotient, and it is no larger
/// than the dividend in size.
pub proof fn lemma_div_trunc(a: int, b: int)
    requires
        b != 0,
    ensures
        is_trunc_quotient(a, b, div_trunc(a, b)),
        abs(div_trunc(a, b)) <= abs(a),
{
    let aa = abs(a);
    let bb = abs(b);
    lemma_fundamental_div_mod(aa, bb);
    lemma_mod_pos_bound(aa, bb);
    lemma_div_nonincreasing(aa, bb);
    let qq = aa / bb;
    let rr = aa % bb;
    let q = div_trunc(a, b);
    if a >= 0 && b > 0 {
        assert(q == qq);
        assert(a - q * b == rr) by (nonlinear_arith)
            requires
                aa == bb * qq + rr,
                aa == a,
                bb == b,
                q == qq,
        ;
    } else if a < 0 && b < 0 {
        assert(q == qq);
        assert(a - q * b == -rr) by (nonlinear_arith)
            requires
                aa == bb * qq + rr,
                aa == -a,
                bb == -b,
                q == qq,
        ;
    } else if a < 0 && b > 0 {
        assert(q == -qq);
        assert(a - q * b == -rr) by (nonlinear_arith)
            requires
                aa == bb * qq + rr,
                aa == -a,
                bb == b,
                q == -qq,
        ;
    } else {
        assert(q == -qq);
        assert(a - q * b == rr) by (nonlinear_arith)
            requires
                aa == bb * qq + rr,
                aa == a,
                bb == -b,
                q == -qq,
        ;
    }
}

/// `*` replaces the top two values by their product, where it fits in an
/// `i32`.
pub proof fn law_mul_is_product(s: CoreView)
    requires
        s.stack.len() >= 2,
        i32::MIN <= s.stack[s.stack.len() - 2] * s.stack[s.stack.len() - 1] <= i32::MAX,
    ensures
        ({
            let n = s.stack.len();
            let o = func_spec(s, WordFunc::Mul);
            &&& o.error is None
            &&& o.core.stack.len() == n - 1
            &&& o.core.stack.take(n - 2) == s.stack.take(n - 2)
            &&& o.core.stack[n - 2] == s.stack[n - 2] * s.stack[n - 1]
        }),
{
    let n = s.stack.len();
    let o = func_spec(s, WordFunc::Mul);
    assert(o.core.stack.take(n - 2) =~= s.stack.take(n - 2));
}

/// `/` replaces the second value `y` and the top value `x` by `y` divided
/// by `x`, truncated towards zero, where `x` is not 0 and the quotient fits.
pub proof fn law_div_truncates(s: CoreView)
    requires
        s.stack.len() >= 2,
        s.stack.last() != 0,
        !(s.stack[s.stack.len() - 2] == i32::MIN && s.stack.last() == -1),
    ensures
        ({
            let n = s.stack.len();
            let y = s.stack[n - 2] as int;
            let x = s.stack[n - 1] as int;
            let o = func_spec(s, WordFunc::Div);
            &&& o.error is None
            &&& o.core.stack.len() == n - 1
            &&& o.core.stack.take(n - 2) == s.stack.take(n - 2)
            &&& is_trunc_quotient(y, x, o.core.stack[n - 2] as int)
        }),
{
    let n = s.stack.len();
    let y = s.stack[n - 2] as int;
    let x = s.stack[n - 1] as int;
    lemma_div_trunc(y, x);
    let q = div_trunc(y, x);
    if abs(q) == abs(y) && abs(y) == 0x8000_0000 {
        assert(abs(y - q * x) < abs(x));
        assert(abs(x) == 1) by (nonlinear_arith)
            requires
                abs(q) == abs(y),
                abs(y - q * x) < abs(x),
                x != 0,
                abs(y) == 0x8000_0000,
        {
        }
        assert(q == y || q == -y);
    }
    let o = func_spec(s, WordFunc::Div);
    assert(o.core.stack.take(n - 2) =~= s.stack.take(n - 2));
}

/// `*/` replaces the third value `z`, the second `y` and the top `x` by
/// `z * y` divided by `x`, truncated towards zero, where the product fits,
/// `x` is not 0 and the quotient fits.
pub proof fn law_muldiv_scales(s: CoreView)
    requires
        s.stack.len() >= 3,
        i32::MIN <= s.stack[s.stack.len() - 3] * s.stack[s.stack.len() - 2] <= i32::MAX,
        s.stack.last() != 0,
        !(s.stack[s.stack.len() - 3] * s.stack[s.stack.len() - 2] == i32::MIN && s.stack.last() == -1),
    ensures
        ({
            let n = s.stack.len();
            let p = s.stack[n - 3] * s.stack[n - 2];
            let x = s.stack[n - 1] as int;
            let o = func_spec(s, WordFunc::MulDiv);
            &&& o.error is None
            &&& o.core.stack.len() == n - 2
            &&& o.core.stack.take(n - 3) == s.stack.take(n - 3)
            &&& is_trunc_quotient(p, x, o.core.stack[n - 3] as int)
        }),
{
    let n = s.stack.len();
    let p = s.stack[n - 3] * s.stack[n - 2];
    let x = s.stack[n - 1] as int;
    lemma_div_trunc(p, x);
    let q = div_trunc(p, x);
    if abs(q) == abs(p) && abs(p) == 0x8000_0000 {
        assert(abs(x) == 1) by (nonlinear_arith)
            requires
                abs(q) == abs(p),
                abs(p - q * x) < abs(x),
                x != 0,
                abs(p) == 0x8000_0000,
        {
        }
        assert(q == p || q == -p);
    }
    let o = func_spec(s, WordFunc::MulDiv);
    assert(o.core.stack.take(n - 3) =~= s.stack.take(n - 3));
}

/// `=` replaces the top two values by 1 where they are equal and by 0
/// where they differ.
pub proof fn law_eq_compares(s: CoreView)
    requires
        s.stack.len() >= 2,
    ensures
        ({
            let n = s.stack.len();
            let o = func_spec(s, WordFunc::Eq);
            &&& o.error is None
            &&& o.core.stack.len() == n - 1
            &&& o.core.stack.take(n - 2) == s.stack.take(n - 2)
            &&& (s.stack[n - 2] == s.stack[n - 1] ==> o.core.stack[n - 2] == 1)
            &&& (s.stack[n - 2] != s.stack[n - 1] ==> o.core.stack[n - 2] == 0)
        }),
{
    let n = s.stack.len();
    let o = func_spec(s, WordFunc::Eq);
    assert(o.core.stack.take(n - 2) =~= s.stack.take(n - 2));
}

/// `const` with a name to read takes the value `v` off the stack, appends
/// it to the code space as a literal, and enters the name as a constant
/// whose cell is that literal.
pub proof fn law_const_takes_value(s: CoreView, r: Resume)
    requires
        s.stack.len() >= 1,
        s.text.len() >= 1,
        r != Resume::Next,
    ensures
        ({
            let v = s.stack.last();
            let name = s.text.last();
            let len = s.dict.defines.len();
            let o = call_spec(s, WordFunc::DefineConst, r);
            &&& o.error is None
            &&& o.core.stack == s.stack.drop_last()
            &&& o.core.dict.defines == s.dict.defines.push(DefineItem::Lit(v))
            &&& o.core.dict.defines[len as int] == DefineItem::Lit(v)
            &&& lookup(o.core.dict.words, name) == Some(
                WordView { func: WordFunc::Const, wtype: WordType::Const, ..created_word(name, len) },
            )
        }),
{
    let name = s.text.last();
    let len = s.dict.defines.len();
    let w = created_word(name, len);
    law_lookup_after_insert(s.dict.words, w, name);
    let ws1 = insert_word(s.dict.words, w);
    lemma_find_pos(ws1, name);
    let p = find_pos(ws1, name);
    let w2 = WordView { func: WordFunc::Const, wtype: WordType::Const, ..w };
    lemma_update_same_name(ws1, p, w2);
    let o = call_spec(s, WordFunc::DefineConst, r);
    assert(o.core.dict.words == ws1.update(p, w2));
}

/// `var` with a name to read leaves the data stack as it was, appends a
/// literal 0 to the code space, and enters the name as a variable whose
/// cell is that literal.
pub proof fn law_var_makes_cell(s: CoreView, r: Resume)
    requires
        s.text.len() >= 1,
        r != Resume::Next,
    ensures
        ({
            let name = s.text.last();
            let len = s.dict.defines.len();
            let o = call_spec(s, WordFunc::DefineVar, r);
            &&& o.error is None
            &&& o.core.stack == s.stack
            &&& o.core.dict.defines == s.dict.defines.push(DefineItem::Lit(0))
            &&& lookup(o.core.dict.words, name) == Some(
                WordView { func: WordFunc::Var, wtype: WordType::Var, ..created_word(name, len) },
            )
        }),
{
    let name = s.text.last();
    let len = s.dict.defines.len();
    let w = created_word(name, len);
    law_lookup_after_insert(s.dict.words, w, name);
    let ws1 = insert_word(s.dict.words, w);
    lemma_find_pos(ws1, name);
    let p = find_pos(ws1, name);
    let w2 = WordView { func: WordFunc::Const, wtype: WordType::Const, ..w };
    lemma_update_same_name(ws1, p, w2);
    let ws2 = ws1.update(p, w2);
    let w3 = WordView { func: WordFunc::Var, wtype: WordType::Var, ..w };
    lemma_update_same_name(ws2, p, w3);
    assert(s.stack.push(0).drop_last() =~= s.stack);
}

/// `dup` puts a second copy of the top value on the stack.
pub proof fn law_dup_copies(s: CoreView)
    requires
        s.stack.len() >= 1,
    ensures
        ({
            let o = func_spec(s, WordFunc::Dup);
            &&& o.error is None
            &&& o.core.stack.len() == s.stack.len() + 1
            &&& o.core.stack.take(s.stack.len() as int) == s.stack
            &&& o.core.stack.last() == s.stack.last()
        }),
{
    assert(func_spec(s, WordFunc::Dup).core.stack.take(s.stack.len() as int) =~= s.stack);
}

/// `.` takes the top value off the stack and prints it; `emit` takes it off
/// and prints the character of its low eight bits.
pub proof fn law_print_takes_top(s: CoreView)
    requires
        s.stack.len() >= 1,
    ensures
        ({
            let o = func_spec(s, WordFunc::Disp);
            let e = func_spec(s, WordFunc::Emit);
            &&& o.error is None && e.error is None
            &&& o.core.stack == s.stack.drop_last() && e.core.stack == s.stack.drop_last()
            &&& o.core.output == s.output.push(OutputView::Number(s.stack.last()))
            &&& e.core.output == s.output.push(OutputView::Char((s.stack.last() as int % 256) as u8))
        }),
{
    let x = s.stack.last();
    assert((x as u8) as int == x as int % 256) by (bit_vector);
}

/// Moving the top value to the return stack with `>R` and back with `R@`
/// leaves both stacks as they were, where the value is not negative.
pub proof fn law_return_stack_round_trip(s: CoreView)
    requires
        s.stack.len() >= 1,
        s.stack.last() >= 0,
    ensures
        ({
            let o1 = func_spec(s, WordFunc::ToR);
            let o2 = func_spec(o1.core, WordFunc::FromR);
            &&& o1.error is None && o2.error is None
            &&& o2.core.stack == s.stack
            &&& o2.core.return_stack == s.return_stack
        }),
{
    let x = s.stack.last();
    assert(((x as usize) as i32) == x) by (bit_vector)
        requires
            x >= 0,
    ;
    let o1 = func_spec(s, WordFunc::ToR);
    assert(o1.core.return_stack.drop_last() =~= s.return_stack);
    assert(s.stack.drop_last().push(x) =~= s.stack);
}

/// `swap` takes the top two values off and puts them back in the order
/// they were in, so the stack is unchanged where it holds two values.
pub proof fn law_swap_keeps_order(s: CoreView)
    requires
        s.stack.len() >= 2,
    ensures
        func_spec(s, WordFunc::Swap).error is None,
        func_spec(s, WordFunc::Swap).core.stack == s.stack,
{
}

} // verus!
