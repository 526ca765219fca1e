use vstd::prelude::*;

verus! {

/// The characters that have the Unicode `White_Space` property.
pub open spec fn is_white_space(c: char) -> bool {
    let n = c as u32;
    ||| 0x9 <= n <= 0xd
    ||| n == 0x20
    ||| n == 0x85
    ||| n == 0xa0
    ||| n == 0x1680
    ||| 0x2000 <= n <= 0x200a
    ||| n == 0x2028
    ||| n == 0x2029
    ||| n == 0x202f
    ||| n == 0x205f
    ||| n == 0x3000
}

/// Whether `c` is white space, as std's `char::is_whitespace` decides it.
fn char_is_whitespace(c: char) -> (b: bool)
    ensures
        b == is_white_space(c),
{
    let n = c as u32;
    (0x9 <= n && n <= 0xd) || n == 0x20 || n == 0x85 || n == 0xa0 || n == 0x1680 || (0x2000 <= n
        && n <= 0x200a) || n == 0x2028 || n == 0x2029 || n == 0x202f || n == 0x205f || n == 0x3000
}

/// The maximal runs of non-white-space characters of `s`, in order.
pub open spec fn split_ws(s: Seq<char>) -> Seq<Seq<char>>
    decreases s.len(),
{
    if s.len() == 0 {
        Seq::empty()
    } else {
        let prev = split_ws(s.drop_last());
        let c = s.last();
        if is_white_space(c) {
            prev
        } else if s.len() >= 2 && !is_white_space(s[s.len() - 2]) {
            prev.update(prev.len() - 1, prev.last().push(c))
        } else {
            prev.push(seq![c])
        }
    }
}

/// The values of a sequence of strings.
pub open spec fn strings_view(v: Seq<String>) -> Seq<Seq<char>> {
    v.map_values(|s: String| s@)
}

/// Text that ends in a character other than white space has a last run.
proof fn lemma_split_ws_nonempty(s: Seq<char>)
    requires
        s.len() > 0,
        !is_white_space(s.last()),
    ensures
        split_ws(s).len() > 0,
    decreases s.len(),
{
    if s.len() >= 2 && !is_white_space(s[s.len() - 2]) {
        lemma_split_ws_nonempty(s.drop_last());
    }
}

/// Every run is non-empty and holds no white space.
pub proof fn law_split_ws_tokens(s: Seq<char>)
    ensures
        forall|k: int|
            0 <= k < split_ws(s).len() ==> #[trigger] split_ws(s)[k].len() > 0 && forall|j: int|
                0 <= j < split_ws(s)[k].len() ==> !is_white_space(#[trigger] split_ws(s)[k][j]),
    decreases s.len(),
{
    if s.len() > 0 {
        law_split_ws_tokens(s.drop_last());
        let prev = split_ws(s.drop_last());
        let c = s.last();
        if !is_white_space(c) && s.len() >= 2 && !is_white_space(s[s.len() - 2]) {
            lemma_split_ws_nonempty(s.drop_last());
            let t = prev.last().push(c);
            assert forall|j: int| 0 <= j < t.len() implies !is_white_space(#[trigger] t[j]) by {
                if j < t.len() - 1 {
                    assert(t[j] == prev[prev.len() - 1][j]);
                }
            }
        }
    }
}

/// Where `p` is empty or ends in white space, the runs of `p + q` are
/// those of `p` followed by those of `q`.
proof fn lemma_split_ws_append(p: Seq<char>, q: Seq<char>)
    requires
        p.len() == 0 || is_white_space(p.last()),
    ensures
        split_ws(p + q) == split_ws(p) + split_ws(q),
    decreases q.len(),
{
    if q.len() == 0 {
        assert(p + q =~= p);
        assert(split_ws(p) + split_ws(q) =~= split_ws(p));
    } else {
        let q1 = q.drop_last();
        let c = q.last();
        lemma_split_ws_append(p, q1);
        let pq = p + q;
        assert(pq.drop_last() =~= p + q1);
        assert(pq.last() == c);
        let a = split_ws(p);
        let b1 = split_ws(q1);
        if is_white_space(c) {
        } else if q.len() >= 2 && !is_white_space(q[q.len() - 2]) {
            assert(pq[pq.len() - 2] == q[q.len() - 2]);
            lemma_split_ws_nonempty(q1);
            assert((a + b1).update((a + b1).len() - 1, (a + b1).last().push(c)) =~= a + b1.update(
                b1.len() - 1,
                b1.last().push(c),
            ));
        } else {
            if q.len() >= 2 {
                assert(pq[pq.len() - 2] == q[q.len() - 2]);
            } else if p.len() > 0 {
                assert(pq[pq.len() - 2] == p.last());
            }
            assert(q1 =~= Seq::<char>::empty() ==> split_ws(q1) =~= Seq::<Seq<char>>::empty());
            assert((a + b1).push(seq![c]) =~= a + b1.push(seq![c]));
        }
    }
}

/// The runs of two texts joined by a space are those of the first followed
/// by those of the second.
pub proof fn law_split_ws_join(a: Seq<char>, b: Seq<char>)
    ensures
        split_ws(a + seq![' '] + b) == split_ws(a) + split_ws(b),
{
    let p = a + seq![' '];
    assert(p.drop_last() =~= a);
    assert(is_white_space(p.last()));
    assert(split_ws(p) == split_ws(a));
    lemma_split_ws_append(p, b);
}

/// Splits `s` at white space, as std's `str::split_whitespace` does.
pub fn split_whitespace(s: &str) -> (r: Vec<String>)
    ensures
        strings_view(r@) == split_ws(s@),
{
    let n: usize = s.unicode_len();
    let mut r: Vec<String> = Vec::new();
    let mut start: usize = 0;
    let mut in_token: bool = false;
    let mut i: usize = 0;
    while i < n
        invariant
            n == s@.len(),
            i <= n,
            in_token <==> (i > 0 && !is_white_space(s@[i - 1])),
            in_token ==> start < i,
            in_token ==> strings_view(r@).push(s@.subrange(start as int, i as int)) == split_ws(
                s@.take(i as int),
            ),
            !in_token ==> strings_view(r@) == split_ws(s@.take(i as int)),
        decreases n - i,
    {
        let c = s.get_char(i);
        let ws = char_is_whitespace(c);
        let ghost pre = s@.take(i as int);
        let ghost cur = s@.take(i + 1);
        proof {
            assert(cur.drop_last() =~= pre);
            assert(cur.last() == c);
            if i > 0 {
                assert(cur[cur.len() - 2] == s@[i - 1]);
            }
        }
        if ws {
            if in_token {
                let tok = String::from_str(s.substring_char(start, i));
                let ghost old_r = strings_view(r@);
                r.push(tok);
                proof {
                    assert(strings_view(r@) =~= old_r.push(s@.subrange(start as int, i as int)));
                }
                in_token = false;
            }
        } else {
            if !in_token {
                start = i;
                in_token = true;
                proof {
                    assert(s@.subrange(start as int, i + 1) =~= seq![c]);
                }
            } else {
                proof {
                    let prev = split_ws(pre);
                    let sv = strings_view(r@);
                    assert(prev =~= sv.push(s@.subrange(start as int, i as int)));
                    assert(s@.subrange(start as int, i + 1) =~= s@.subrange(
                        start as int,
                        i as int,
                    ).push(c));
                    assert(prev.update(prev.len() - 1, prev.last().push(c)) =~= sv.push(
                        s@.subrange(start as int, i + 1),
                    ));
                }
            }
        }
        i = i + 1;
    }
    proof {
        assert(s@.take(n as int) =~= s@);
    }
    if in_token {
        let tok = String::from_str(s.substring_char(start, n));
        let ghost old_r = strings_view(r@);
        r.push(tok);
        proof {
            assert(strings_view(r@) =~= old_r.push(s@.subrange(start as int, n as int)));
        }
    }
    r
}

/// Decimal digits.
pub open spec fn is_digit(c: char) -> bool {
    '0' <= c && c <= '9'
}

/// A non-empty run of decimal digits.
pub open spec fn all_digits(s: Seq<char>) -> bool {
    s.len() > 0 && forall|i: int| 0 <= i < s.len() ==> is_digit(#[trigger] s[i])
}

/// The value of a run of decimal digits.
pub open spec fn digits_value(s: Seq<char>) -> int
    decreases s.len(),
{
    if s.len() == 0 {
        0
    } else {
        digits_value(s.drop_last()) * 10 + (s.last() as int - '0' as int)
    }
}

/// The integer that `s` writes in decimal: an optional `+` or `-` followed
/// by one or more decimal digits, and nothing else.
pub open spec fn decimal_value(s: Seq<char>) -> Option<int> {
    if s.len() > 0 && s[0] == '-' && all_digits(s.drop_first()) {
        Some(-digits_value(s.drop_first()))
    } else if s.len() > 0 && s[0] == '+' && all_digits(s.drop_first()) {
        Some(digits_value(s.drop_first()))
    } else if all_digits(s) {
        Some(digits_value(s))
    } else {
        None
    }
}

/// The `i32` that `s` writes in decimal, where it writes one in range.
pub open spec fn parse_i32_spec(s: Seq<char>) -> Option<i32> {
    match decimal_value(s) {
        Some(v) => if i32::MIN <= v <= i32::MAX {
            Some(v as i32)
        } else {
            None
        },
        None => None,
    }
}

/// A run of decimal digits has a value of at least 0.
proof fn lemma_digits_value_nonneg(t: Seq<char>)
    requires
        forall|i: int| 0 <= i < t.len() ==> is_digit(#[trigger] t[i]),
    ensures
        digits_value(t) >= 0,
    decreases t.len(),
{
    if t.len() > 0 {
        lemma_digits_value_nonneg(t.drop_last());
    }
}

/// Reads the decimal digits of `s` from position `start` on: their value,
/// or `None` where one of them is not a digit or the value exceeds
/// 2147483648.
fn read_digits(s: &str, start: usize) -> (r: Option<i64>)
    requires
        start <= s@.len(),
    ensures
        ({
            let t = s@.subrange(start as int, s@.len() as int);
            match r {
                Some(v) => (forall|i: int| 0 <= i < t.len() ==> is_digit(#[trigger] t[i])) && v
                    == digits_value(t) && 0 <= v <= 2147483648,
                None => !(forall|i: int| 0 <= i < t.len() ==> is_digit(#[trigger] t[i]))
                    || digits_value(t) > 2147483648,
            }
        }),
{
    let n: usize = s.unicode_len();
    let ghost t = s@.subrange(start as int, n as int);
    let mut acc: i64 = 0;
    let mut big: bool = false;
    let mut i: usize = start;
    while i < n
        invariant
            n == s@.len(),
            start <= i <= n,
            t == s@.subrange(start as int, n as int),
            forall|j: int| 0 <= j < i - start ==> is_digit(#[trigger] t[j]),
            !big ==> acc == digits_value(t.take(i - start)) && 0 <= acc <= 2147483648,
            big ==> digits_value(t.take(i - start)) > 2147483648,
        decreases n - i,
    {
        let c = s.get_char(i);
        let ghost p = t.take(i - start);
        proof {
            assert(t[i - start] == c);
            assert(t.take(i - start + 1).drop_last() =~= p);
            assert(t.take(i - start + 1).last() == c);
            assert forall|j: int| 0 <= j < p.len() implies is_digit(#[trigger] p[j]) by {
                assert(p[j] == t[j]);
            }
            lemma_digits_value_nonneg(p);
        }
        if !(c >= '0' && c <= '9') {
            return None;
        }
        let d = (c as u32 - '0' as u32) as i64;
        if !big {
            acc = acc * 10 + d;
            if acc > 2147483648 {
                big = true;
            }
        }
        i = i + 1;
    }
    proof {
        assert(t.take(n - start) =~= t);
    }
    if big {
        None
    } else {
        Some(acc)
    }
}

/// Reads the `i32` that `s` writes in decimal, as std's `str::parse::<i32>`
/// does.
pub(crate) fn parse_i32(s: &str) -> (r: Option<i32>)
    ensures
        r == parse_i32_spec(s@),
{
    let n: usize = s.unicode_len();
    if n == 0 {
        return None;
    }
    let c0 = s.get_char(0);
    proof {
        assert(s@.drop_first() =~= s@.subrange(1, n as int));
        assert(s@.subrange(0, n as int) =~= s@);
    }
    if c0 == '-' || c0 == '+' {
        proof {
            assert(!is_digit(s@[0]));
        }
        if n == 1 {
            proof {
                assert(!all_digits(s@.drop_first()));
                assert(!all_digits(s@));
            }
            return None;
        }
        let r = read_digits(s, 1);
        proof {
            assert(!all_digits(s@));
            assert(s@.drop_first().len() > 0);
        }
        match r {
            Some(v) => {
                if c0 == '-' {
                    Some((-v) as i32)
                } else if v <= 2147483647 {
                    Some(v as i32)
                } else {
                    None
                }
            },
            None => None,
        }
    } else {
        let r = read_digits(s, 0);
        proof {
            assert(s@.len() > 0);
        }
        match r {
            Some(v) => if v <= 2147483647 {
                Some(v as i32)
            } else {
                None
            },
            None => None,
        }
    }
}

} // verus!
