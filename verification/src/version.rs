//! The order in which releases are shown: by the three numbers of the
//! version, highest first, so that `24.11.2` stands before `24.3.0` and that
//! before `2.9.0`. Versions with the same numbers, such as `24.3.0` and
//! `24.3.0-dev`, follow each other in the order of their text.

use vstd::prelude::*;
use crate::release::{count_digits, digit_run};
use crate::text::{chars_of, digit};

verus! {

/// Where one thing stands relative to another.
#[derive(Debug, Clone, Copy, PartialEq, Eq, Structural)]
pub enum Order {
    Before,
    Same,
    After,
}

/// The number that the decimal digits `s` write.
pub open spec fn digits_value(s: Seq<char>) -> nat
    decreases s.len(),
{
    if s.len() == 0 {
        0
    } else {
        10 * digits_value(s.drop_last()) + (s.last() as int - '0' as int) as nat
    }
}

/// `n`, or `u64::MAX` where `n` is beyond it.
pub open spec fn capped(n: nat) -> u64 {
    if n > u64::MAX {
        u64::MAX
    } else {
        n as u64
    }
}

/// The number written in `v` from index `from` on, capped at `u64::MAX`; 0
/// where no digit stands there.
pub open spec fn number_at(v: Seq<char>, from: int) -> u64 {
    if 0 <= from <= v.len() {
        capped(digits_value(v.subrange(from, from + digit_run(v, from))))
    } else {
        0
    }
}

/// The three numbers of a version. The `-dev` of a version and anything else
/// behind the third number take no part.
pub open spec fn version_key(v: Seq<char>) -> (u64, u64, u64) {
    let a = digit_run(v, 0) as int;
    let b = digit_run(v, a + 1) as int;
    (number_at(v, 0), number_at(v, a + 1), number_at(v, a + b + 2))
}

/// The order of two texts, character by character; a text stands before
/// every text that it is a proper prefix of.
pub open spec fn text_order(a: Seq<char>, b: Seq<char>) -> Order
    decreases a.len(),
{
    if a.len() == 0 {
        if b.len() == 0 {
            Order::Same
        } else {
            Order::Before
        }
    } else if b.len() == 0 {
        Order::After
    } else if a[0] < b[0] {
        Order::Before
    } else if a[0] > b[0] {
        Order::After
    } else {
        text_order(a.drop_first(), b.drop_first())
    }
}

/// The order of two versions for display: the higher numbers first, and by
/// text where the numbers are the same.
pub open spec fn version_order(a: Seq<char>, b: Seq<char>) -> Order {
    let x = version_key(a);
    let y = version_key(b);
    if x.0 != y.0 {
        if x.0 > y.0 {
            Order::Before
        } else {
            Order::After
        }
    } else if x.1 != y.1 {
        if x.1 > y.1 {
            Order::Before
        } else {
            Order::After
        }
    } else if x.2 != y.2 {
        if x.2 > y.2 {
            Order::Before
        } else {
            Order::After
        }
    } else {
        text_order(a, b)
    }
}

/// Two texts are in the same place exactly when they are the same text.
pub proof fn lemma_text_order_same(a: Seq<char>, b: Seq<char>)
    ensures
        (text_order(a, b) == Order::Same) <==> a == b,
    decreases a.len(),
{
    if a.len() > 0 && b.len() > 0 {
        lemma_text_order_same(a.drop_first(), b.drop_first());
        if a[0] == b[0] && a.drop_first() == b.drop_first() {
            assert(a =~= seq![a[0]] + a.drop_first());
            assert(b =~= seq![b[0]] + b.drop_first());
        }
    } else if a.len() == 0 && b.len() == 0 {
        assert(a =~= b);
    }
}

/// `a` stands before `b` exactly when `b` stands after `a`.
pub proof fn lemma_text_order_flip(a: Seq<char>, b: Seq<char>)
    ensures
        (text_order(a, b) == Order::Before) <==> (text_order(b, a) == Order::After),
        (text_order(a, b) == Order::Same) <==> (text_order(b, a) == Order::Same),
    decreases a.len(),
{
    if a.len() > 0 && b.len() > 0 {
        lemma_text_order_flip(a.drop_first(), b.drop_first());
    }
}

/// Standing before is transitive.
pub proof fn lemma_text_order_transitive(a: Seq<char>, b: Seq<char>, c: Seq<char>)
    requires
        text_order(a, b) == Order::Before,
        text_order(b, c) == Order::Before,
    ensures
        text_order(a, c) == Order::Before,
    decreases a.len(),
{
    if a.len() > 0 && b.len() > 0 && c.len() > 0 {
        if a[0] == b[0] && b[0] == c[0] {
            lemma_text_order_transitive(a.drop_first(), b.drop_first(), c.drop_first());
        }
    }
}

/// Two versions are in the same place exactly when they are the same text.
pub proof fn lemma_version_order_same(a: Seq<char>, b: Seq<char>)
    ensures
        (version_order(a, b) == Order::Same) <==> a == b,
{
    lemma_text_order_same(a, b);
}

/// `a` is shown before `b` exactly when `b` is shown after `a`.
pub proof fn lemma_version_order_flip(a: Seq<char>, b: Seq<char>)
    ensures
        (version_order(a, b) == Order::Before) <==> (version_order(b, a) == Order::After),
        (version_order(a, b) == Order::Same) <==> (version_order(b, a) == Order::Same),
{
    lemma_text_order_flip(a, b);
}

/// Being shown before is transitive.
pub proof fn lemma_version_order_transitive(a: Seq<char>, b: Seq<char>, c: Seq<char>)
    requires
        version_order(a, b) == Order::Before,
        version_order(b, c) == Order::Before,
    ensures
        version_order(a, c) == Order::Before,
{
    if version_key(a) == version_key(b) && version_key(b) == version_key(c) {
        lemma_text_order_transitive(a, b, c);
    }
}

/// A version with a higher first, second or third number is shown first,
/// whatever the texts are: the order is by number, not by character.
pub proof fn lemma_higher_numbers_first(a: Seq<char>, b: Seq<char>)
    requires
        ({
            let x = version_key(a);
            let y = version_key(b);
            x.0 > y.0 || (x.0 == y.0 && x.1 > y.1) || (x.0 == y.0 && x.1 == y.1 && x.2 > y.2)
        }),
    ensures
        version_order(a, b) == Order::Before,
{
}

/// Decides [`number_at`].
pub fn read_number(text: &Vec<char>, from: usize) -> (n: u64)
    ensures
        n == number_at(text@, from as int),
{
    if from > text.len() {
        return 0;
    }
    let mut acc: u64 = 0;
    let mut i: usize = from;
    assert(text@.subrange(from as int, from as int) =~= Seq::<char>::empty());
    while i < text.len() && digit(text[i])
        invariant
            from <= i <= text.len(),
            digit_run(text@, from as int) == (i - from) + digit_run(text@, i as int),
            acc == capped(digits_value(text@.subrange(from as int, i as int))),
        decreases text.len() - i,
    {
        let c = text[i];
        let d: u64 = (c as u32 - '0' as u32) as u64;
        proof {
            let upto = text@.subrange(from as int, i + 1);
            assert(upto.drop_last() =~= text@.subrange(from as int, i as int));
            assert(upto.last() == c);
            assert(d == (c as int - '0' as int) as nat);
        }
        acc = match acc.checked_mul(10) {
            Some(x) => match x.checked_add(d) {
                Some(y) => y,
                None => u64::MAX,
            },
            None => u64::MAX,
        };
        i += 1;
    }
    acc
}

/// Decides [`version_key`].
pub fn key_of(text: &Vec<char>) -> (key: (u64, u64, u64))
    ensures
        key == version_key(text@),
{
    let len = text.len();
    let major = read_number(text, 0);
    let a = count_digits(text, 0);
    if a >= len {
        assert(digit_run(text@, a + 1) == 0);
        return (major, 0, 0);
    }
    let minor = read_number(text, a + 1);
    let b = count_digits(text, a + 1);
    if a + b + 1 >= len {
        return (major, minor, 0);
    }
    let patch = read_number(text, a + b + 2);
    (major, minor, patch)
}

/// Decides [`text_order`].
pub fn compare_text(a: &Vec<char>, b: &Vec<char>) -> (r: Order)
    ensures
        r == text_order(a@, b@),
{
    let mut i: usize = 0;
    proof {
        assert(a@.skip(0) =~= a@);
        assert(b@.skip(0) =~= b@);
    }
    while i < a.len() && i < b.len()
        invariant
            i <= a.len(),
            i <= b.len(),
            text_order(a@, b@) == text_order(a@.skip(i as int), b@.skip(i as int)),
        decreases a.len() - i,
    {
        proof {
            assert(a@.skip(i as int)[0] == a@[i as int]);
            assert(b@.skip(i as int)[0] == b@[i as int]);
            assert(a@.skip(i as int).drop_first() =~= a@.skip(i + 1));
            assert(b@.skip(i as int).drop_first() =~= b@.skip(i + 1));
        }
        if a[i] < b[i] {
            return Order::Before;
        }
        if a[i] > b[i] {
            return Order::After;
        }
        i += 1;
    }
    if i < b.len() {
        Order::Before
    } else if i < a.len() {
        Order::After
    } else {
        Order::Same
    }
}

/// Decides [`version_order`].
pub fn compare_versions(a: &str, b: &str) -> (r: Order)
    ensures
        r == version_order(a@, b@),
{
    let x = chars_of(a);
    let y = chars_of(b);
    let p = key_of(&x);
    let q = key_of(&y);
    if p.0 != q.0 {
        if p.0 > q.0 {
            Order::Before
        } else {
            Order::After
        }
    } else if p.1 != q.1 {
        if p.1 > q.1 {
            Order::Before
        } else {
            Order::After
        }
    } else if p.2 != q.2 {
        if p.2 > q.2 {
            Order::Before
        } else {
            Order::After
        }
    } else {
        compare_text(&x, &y)
    }
}

} // verus!
