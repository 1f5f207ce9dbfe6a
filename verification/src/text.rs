//! Character-level text helpers: equality, the lexicographic order that
//! `String`'s `Ord` uses, decimal rendering and joining.
use vstd::prelude::*;

verus! {

/// Strict lexicographic order on character sequences. Rust orders `str` by
/// its UTF-8 bytes, which orders code points the same way.
pub open spec fn lex_lt(a: Seq<char>, b: Seq<char>) -> bool
    decreases a.len(),
{
    if b.len() == 0 {
        false
    } else if a.len() == 0 {
        true
    } else if a[0] != b[0] {
        (a[0] as int) < (b[0] as int)
    } else {
        lex_lt(a.drop_first(), b.drop_first())
    }
}

/// Non-strict lexicographic order.
pub open spec fn lex_le(a: Seq<char>, b: Seq<char>) -> bool {
    a == b || lex_lt(a, b)
}

pub proof fn lemma_lex_lt_irreflexive(a: Seq<char>)
    ensures
        !lex_lt(a, a),
    decreases a.len(),
{
    if a.len() > 0 {
        lemma_lex_lt_irreflexive(a.drop_first());
    }
}

pub proof fn lemma_lex_lt_asymmetric(a: Seq<char>, b: Seq<char>)
    ensures
        lex_lt(a, b) ==> !lex_lt(b, a),
    decreases a.len(),
{
    if a.len() > 0 && b.len() > 0 && a[0] == b[0] {
        lemma_lex_lt_asymmetric(a.drop_first(), b.drop_first());
    }
}

pub proof fn lemma_lex_lt_transitive(a: Seq<char>, b: Seq<char>, c: Seq<char>)
    requires
        lex_lt(a, b),
        lex_lt(b, c),
    ensures
        lex_lt(a, c),
    decreases a.len(),
{
    if a.len() > 0 && a[0] == b[0] && b[0] == c[0] {
        lemma_lex_lt_transitive(a.drop_first(), b.drop_first(), c.drop_first());
    }
}

pub proof fn lemma_lex_lt_total(a: Seq<char>, b: Seq<char>)
    ensures
        lex_lt(a, b) || a == b || lex_lt(b, a),
    decreases a.len(),
{
    if a.len() == 0 || b.len() == 0 {
        if a.len() == 0 && b.len() == 0 {
            assert(a =~= b);
        }
    } else if a[0] == b[0] {
        lemma_lex_lt_total(a.drop_first(), b.drop_first());
        if a.drop_first() == b.drop_first() {
            assert(a =~= seq![a[0]] + a.drop_first());
            assert(b =~= seq![b[0]] + b.drop_first());
        }
    } else {
        assert((a[0] as int) != (b[0] as int));
    }
}

pub proof fn lemma_lex_le_transitive(a: Seq<char>, b: Seq<char>, c: Seq<char>)
    requires
        lex_le(a, b),
        lex_le(b, c),
    ensures
        lex_le(a, c),
{
    if lex_lt(a, b) && lex_lt(b, c) {
        lemma_lex_lt_transitive(a, b, c);
    }
}

/// Strings that agree up to a position and differ there are ordered by the
/// characters at that position, whatever their lengths.
pub proof fn lemma_lex_lt_at_first_difference(a: Seq<char>, b: Seq<char>, i: int)
    requires
        0 <= i < a.len(),
        i < b.len(),
        forall|j: int| 0 <= j < i ==> a[j] == b[j],
        a[i] != b[i],
    ensures
        lex_lt(a, b) == ((a[i] as int) < (b[i] as int)),
        lex_lt(b, a) == ((b[i] as int) < (a[i] as int)),
    decreases i,
{
    if i > 0 {
        assert(a[0] == b[0]);
        assert(a.drop_first()[i - 1] == a[i]);
        assert(b.drop_first()[i - 1] == b[i]);
        lemma_lex_lt_at_first_difference(a.drop_first(), b.drop_first(), i - 1);
    } else {
        assert((a[0] as int) != (b[0] as int));
    }
}

/// A proper prefix orders before the longer string, and the longer string
/// does not order before it.
pub proof fn lemma_lex_lt_proper_prefix(a: Seq<char>, b: Seq<char>)
    requires
        a.len() < b.len(),
        forall|j: int| 0 <= j < a.len() ==> a[j] == b[j],
    ensures
        lex_lt(a, b),
        !lex_lt(b, a),
    decreases a.len(),
{
    if a.len() > 0 {
        assert(a[0] == b[0]);
        lemma_lex_lt_proper_prefix(a.drop_first(), b.drop_first());
    }
}

/// Character-by-character equality of two strings.
pub fn str_equal(a: &str, b: &str) -> (r: bool)
    ensures
        r == (a@ == b@),
{
    let n = a.unicode_len();
    let m = b.unicode_len();
    if n != m {
        return false;
    }
    let mut i: usize = 0;
    while i < n
        invariant
            n == a@.len(),
            m == b@.len(),
            n == m,
            i <= n,
            forall|j: int| 0 <= j < i ==> a@[j] == b@[j],
        decreases n - i,
    {
        if a.get_char(i) != b.get_char(i) {
            return false;
        }
        i = i + 1;
    }
    assert(a@ =~= b@);
    true
}

/// Whether `a` orders strictly before `b`, as `str`'s `Ord` orders them.
pub fn str_less(a: &str, b: &str) -> (r: bool)
    ensures
        r == lex_lt(a@, b@),
{
    let n = a.unicode_len();
    let m = b.unicode_len();
    let mut i: usize = 0;
    assert(a@.skip(0) =~= a@);
    assert(b@.skip(0) =~= b@);
    while i < n && i < m
        invariant
            n == a@.len(),
            m == b@.len(),
            i <= n,
            i <= m,
            a@.subrange(0, i as int) == b@.subrange(0, i as int),
            lex_lt(a@, b@) == lex_lt(a@.skip(i as int), b@.skip(i as int)),
        decreases n - i,
    {
        let ca = a.get_char(i);
        let cb = b.get_char(i);
        proof {
            assert(a@.skip(i as int)[0] == ca);
            assert(b@.skip(i as int)[0] == cb);
            assert(a@.skip(i as int).drop_first() =~= a@.skip(i + 1));
            assert(b@.skip(i as int).drop_first() =~= b@.skip(i + 1));
        }
        if ca != cb {
            return (ca as u32) < (cb as u32);
        }
        i = i + 1;
        assert(a@.subrange(0, i as int) =~= a@.subrange(0, i - 1).push(ca));
        assert(b@.subrange(0, i as int) =~= b@.subrange(0, i - 1).push(cb));
    }
    i < m
}

/// Decimal digits of a natural number, as `Display` writes an unsigned integer.
pub open spec fn decimal(n: nat) -> Seq<char>
    decreases n,
{
    if n < 10 {
        seq![digit_char(n)]
    } else {
        decimal(n / 10).push(digit_char(n % 10))
    }
}

/// The character of a decimal digit.
pub open spec fn digit_char(d: nat) -> char {
    if d == 0 { '0' }
    else if d == 1 { '1' }
    else if d == 2 { '2' }
    else if d == 3 { '3' }
    else if d == 4 { '4' }
    else if d == 5 { '5' }
    else if d == 6 { '6' }
    else if d == 7 { '7' }
    else if d == 8 { '8' }
    else { '9' }
}

fn digit_str(d: usize) -> (r: &'static str)
    requires
        d < 10,
    ensures
        r@ == seq![digit_char(d as nat)],
{
    let r = if d == 0 { "0" }
        else if d == 1 { "1" }
        else if d == 2 { "2" }
        else if d == 3 { "3" }
        else if d == 4 { "4" }
        else if d == 5 { "5" }
        else if d == 6 { "6" }
        else if d == 7 { "7" }
        else if d == 8 { "8" }
        else { "9" };
    proof {
        reveal_strlit("0");
        reveal_strlit("1");
        reveal_strlit("2");
        reveal_strlit("3");
        reveal_strlit("4");
        reveal_strlit("5");
        reveal_strlit("6");
        reveal_strlit("7");
        reveal_strlit("8");
        reveal_strlit("9");
    }
    assert(r@ =~= seq![digit_char(d as nat)]);
    r
}

/// The number that a string of decimal digits spells.
pub open spec fn digits_value(s: Seq<char>) -> int
    decreases s.len(),
{
    if s.len() == 0 {
        0
    } else {
        digits_value(s.drop_last()) * 10 + ((s.last() as int) - ('0' as int))
    }
}

proof fn lemma_digit_char(d: nat)
    requires
        d < 10,
    ensures
        (digit_char(d) as int) - ('0' as int) == d,
        '0' <= digit_char(d) <= '9',
{
    assert(('0' as int) == 48);
    assert(('1' as int) == 49);
    assert(('2' as int) == 50);
    assert(('3' as int) == 51);
    assert(('4' as int) == 52);
    assert(('5' as int) == 53);
    assert(('6' as int) == 54);
    assert(('7' as int) == 55);
    assert(('8' as int) == 56);
    assert(('9' as int) == 57);
}

/// The decimal rendering of `n` is made of the digits `0` to `9`, spells
/// `n`, and has no leading zero.
pub proof fn lemma_decimal_spells_value(n: nat)
    ensures
        decimal(n).len() > 0,
        forall|i: int| 0 <= i < decimal(n).len() ==> '0' <= #[trigger] decimal(n)[i] <= '9',
        digits_value(decimal(n)) == n,
        decimal(n).len() > 1 ==> decimal(n)[0] != '0',
    decreases n,
{
    lemma_digit_char(n % 10);
    if n < 10 {
        let d = decimal(n);
        assert(d.drop_last() =~= Seq::<char>::empty());
        assert(d.last() == digit_char(n));
        assert(digits_value(d.drop_last()) == 0);
        assert(n % 10 == n);
    } else {
        lemma_decimal_spells_value(n / 10);
        let d = decimal(n);
        let p = decimal(n / 10);
        assert(d.drop_last() =~= p);
        assert forall|i: int| 0 <= i < d.len() implies '0' <= #[trigger] d[i] <= '9' by {
            if i < p.len() {
                assert(d[i] == p[i]);
            }
        }
        assert(d[0] == p[0]);
        assert((n / 10) * 10 + n % 10 == n) by (nonlinear_arith);
        assert(n / 10 >= 1);
        if n / 10 < 10 {
            lemma_digit_char(n / 10);
            assert(p[0] == digit_char(n / 10));
        } else {
            lemma_decimal_spells_value(n / 10 / 10);
            assert(p.len() > 1);
        }
        assert(d.last() == digit_char(n % 10));
        assert(digits_value(d) == digits_value(p) * 10 + ((d.last() as int) - ('0' as int)));
    }
}

/// Appends the decimal rendering of `n` to `out`.
pub fn push_decimal(out: &mut String, n: usize)
    ensures
        final(out)@ == old(out)@ + decimal(n as nat),
    decreases n,
{
    if n >= 10 {
        push_decimal(out, n / 10);
    }
    let d = n % 10;
    out.append(digit_str(d));
    assert(final(out)@ =~= old(out)@ + decimal(n as nat));
}

/// Elements joined by a separator.
pub open spec fn join(items: Seq<Seq<char>>, sep: Seq<char>) -> Seq<char>
    decreases items.len(),
{
    if items.len() == 0 {
        Seq::empty()
    } else if items.len() == 1 {
        items[0]
    } else {
        join(items.drop_last(), sep) + sep + items.last()
    }
}

/// Every element occurs in the joined text, at the returned position.
pub proof fn lemma_join_contains(items: Seq<Seq<char>>, sep: Seq<char>, i: int) -> (at: int)
    requires
        0 <= i < items.len(),
    ensures
        0 <= at,
        at + items[i].len() <= join(items, sep).len(),
        join(items, sep).subrange(at, at + items[i].len()) == items[i],
    decreases items.len(),
{
    if items.len() == 1 {
        assert(join(items, sep).subrange(0, items[i].len() as int) =~= items[i]);
        0
    } else if i == items.len() - 1 {
        let front = join(items.drop_last(), sep) + sep;
        let whole = join(items, sep);
        assert(whole.subrange(front.len() as int, (front.len() + items[i].len()) as int) =~= items[i]);
        front.len() as int
    } else {
        let at = lemma_join_contains(items.drop_last(), sep, i);
        let inner = join(items.drop_last(), sep);
        let whole = join(items, sep);
        assert(items.drop_last()[i] == items[i]);
        assert(whole.subrange(at, at + items[i].len()) =~= inner.subrange(at, at + items[i].len()));
        at
    }
}

/// Joining one more element appends the separator and that element.
pub proof fn lemma_join_push(items: Seq<Seq<char>>, sep: Seq<char>, x: Seq<char>)
    ensures
        join(items.push(x), sep) == if items.len() == 0 { x } else { join(items, sep) + sep + x },
{
    assert(items.push(x).drop_last() =~= items);
}

/// Appends `items`, separated by `sep`, to `out`.
pub fn push_joined(out: &mut String, items: &Vec<String>, sep: &str)
    ensures
        final(out)@ == old(out)@ + join(items.deep_view(), sep@),
{
    let ghost items_v = items.deep_view();
    let n = items.len();
    let mut i: usize = 0;
    while i < n
        invariant
            n == items@.len(),
            items_v == items.deep_view(),
            i <= n,
            out@ == old(out)@ + join(items_v.take(i as int), sep@),
        decreases n - i,
    {
        if i > 0 {
            out.append(sep);
        }
        out.append(items[i].as_str());
        proof {
            assert(items_v.take(i + 1).drop_last() =~= items_v.take(i as int));
            assert(items_v.take(i + 1).last() == items[i as int]@);
            if i == 0 {
                assert(items_v.take(1).len() == 1);
            }
        }
        i = i + 1;
    }
    assert(items_v.take(n as int) =~= items_v);
}

} // verus!
