//! Text primitives shared by the pipeline stages.
//!
//! Every string the pipeline handles is modelled by its sequence of
//! characters; the functions here are stated over that model.

use vstd::prelude::*;

verus! {

/// Appends one character to `s` by calling `String::push`.
///
/// Trusted: the standard library documents that `push` appends the given
/// character to the end of the string.
#[verifier::external_body]
pub(crate) fn push_char(s: &mut String, c: char)
    ensures
        final(s)@ == old(s)@.push(c),
{
    s.push(c);
}

/// The characters of `s`, in order.
pub fn chars_of(s: &str) -> (v: Vec<char>)
    ensures
        v@ == s@,
{
    let mut v: Vec<char> = Vec::new();
    for c in it: s.chars()
        invariant
            it.seq() == s@,
            v@ == it.seq().take(it.index()),
    {
        v.push(c);
    }
    assert(v@ == s@);
    v
}

/// The string made of `cs[from..to]`.
pub fn string_of(cs: &Vec<char>, from: usize, to: usize) -> (s: String)
    requires
        from <= to <= cs.len(),
    ensures
        s@ == cs@.subrange(from as int, to as int),
{
    let mut s = String::new();
    let mut i: usize = from;
    while i < to
        invariant
            from <= i <= to <= cs.len(),
            s@ == cs@.subrange(from as int, i as int),
        decreases to - i,
    {
        push_char(&mut s, cs[i]);
        i += 1;
    }
    s
}

/// `a` followed by `b`.
pub fn chain(a: &str, b: &str) -> (r: String)
    ensures
        r@ == a@ + b@,
{
    let mut r = String::new();
    r.append(a);
    r.append(b);
    r
}

/// `a`, `b` and `c`, one after the other.
pub fn chain3(a: &str, b: &str, c: &str) -> (r: String)
    ensures
        r@ == a@ + b@ + c@,
{
    let mut r = String::new();
    r.append(a);
    r.append(b);
    r.append(c);
    r
}

/// `a`, `b`, `c` and `d`, one after the other.
pub fn chain4(a: &str, b: &str, c: &str, d: &str) -> (r: String)
    ensures
        r@ == a@ + b@ + c@ + d@,
{
    let mut r = String::new();
    r.append(a);
    r.append(b);
    r.append(c);
    r.append(d);
    r
}

/// Whether `s` ends with `suffix`.
pub fn ends_with(s: &str, suffix: &str) -> (r: bool)
    ensures
        r == suffix@.is_suffix_of(s@),
{
    let a = chars_of(s);
    let b = chars_of(suffix);
    if b.len() > a.len() {
        return false;
    }
    let off: usize = a.len() - b.len();
    let mut i: usize = 0;
    while i < b.len()
        invariant
            a@ == s@,
            b@ == suffix@,
            off + b.len() == a.len(),
            i <= b.len(),
            forall|k: int| 0 <= k < i ==> a@[off + k] == b@[k],
        decreases b.len() - i,
    {
        if a[off + i] != b[i] {
            proof {
                let tail = a@.subrange(off as int, a.len() as int);
                assert(tail[i as int] != b@[i as int]);
                assert(!(b@ =~= tail));
            }
            return false;
        }
        i += 1;
    }
    assert(b@ =~= a@.subrange(off as int, a.len() as int));
    true
}

// ---------------------------------------------------------------------------
// Decimal numerals
// ---------------------------------------------------------------------------

/// The numeral for one decimal digit.
pub open spec fn digit_char(d: int) -> char {
    if d == 0 {
        '0'
    } else if d == 1 {
        '1'
    } else if d == 2 {
        '2'
    } else if d == 3 {
        '3'
    } else if d == 4 {
        '4'
    } else if d == 5 {
        '5'
    } else if d == 6 {
        '6'
    } else if d == 7 {
        '7'
    } else if d == 8 {
        '8'
    } else {
        '9'
    }
}

/// The decimal numeral of a natural number, without leading zeros.
pub open spec fn digits(n: nat) -> Seq<char>
    decreases n,
{
    if n < 10 {
        seq![digit_char(n as int)]
    } else {
        digits(n / 10).push(digit_char((n % 10) as int))
    }
}

/// The decimal numeral of an integer: a minus sign for a negative one, then
/// the digits of its magnitude.
pub open spec fn decimal(i: int) -> Seq<char> {
    if i < 0 {
        seq!['-'] + digits((-i) as nat)
    } else {
        digits(i as nat)
    }
}

/// Whether `c` is a decimal digit.
pub open spec fn is_digit(c: char) -> bool {
    '0' <= c <= '9'
}

/// The numeral of a natural number is made of digits, at least one, and of
/// exactly one when the number is below ten.
pub proof fn lemma_digits_shape(n: nat)
    ensures
        digits(n).len() >= 1,
        digits(n).len() == 1 <==> n < 10,
        forall|k: int| 0 <= k < digits(n).len() ==> is_digit(#[trigger] digits(n)[k]),
    decreases n,
{
    if n >= 10 {
        lemma_digits_shape(n / 10);
    }
}

/// Different digits have different numerals.
pub proof fn lemma_digit_char_differs(a: int, b: int)
    requires
        0 <= a < 10,
        0 <= b < 10,
        digit_char(a) == digit_char(b),
    ensures
        a == b,
{
}

/// Different natural numbers have different numerals.
pub proof fn lemma_digits_differ(a: nat, b: nat)
    requires
        digits(a) == digits(b),
    ensures
        a == b,
    decreases a,
{
    lemma_digits_shape(a);
    lemma_digits_shape(b);
    if a < 10 {
        assert(b < 10);
        assert(digits(a)[0] == digit_char(a as int));
        assert(digits(b)[0] == digit_char(b as int));
        lemma_digit_char_differs(a as int, b as int);
    } else {
        assert(b >= 10);
        let da = digits(a / 10);
        let db = digits(b / 10);
        assert(da =~= digits(a).drop_last());
        assert(db =~= digits(b).drop_last());
        assert(digits(a).last() == digit_char((a % 10) as int));
        assert(digits(b).last() == digit_char((b % 10) as int));
        lemma_digits_differ(a / 10, b / 10);
        lemma_digit_char_differs((a % 10) as int, (b % 10) as int);
        assert(a == 10 * (a / 10) + a % 10);
        assert(b == 10 * (b / 10) + b % 10);
    }
}

/// Different integers have different numerals.
pub proof fn lemma_decimal_differs(a: int, b: int)
    requires
        decimal(a) == decimal(b),
    ensures
        a == b,
{
    let ma = (if a < 0 { -a } else { a }) as nat;
    let mb = (if b < 0 { -b } else { b }) as nat;
    lemma_digits_shape(ma);
    lemma_digits_shape(mb);
    if a < 0 && b < 0 {
        assert(digits(ma) =~= decimal(a).skip(1));
        assert(digits(mb) =~= decimal(b).skip(1));
        lemma_digits_differ(ma, mb);
    } else if a >= 0 && b >= 0 {
        lemma_digits_differ(ma, mb);
    } else if a < 0 {
        assert(decimal(a)[0] == '-');
        assert(is_digit(digits(mb)[0]));
    } else {
        assert(decimal(b)[0] == '-');
        assert(is_digit(digits(ma)[0]));
    }
}

fn digit_of(d: u64) -> (c: char)
    requires
        d < 10,
    ensures
        c == digit_char(d as int),
{
    if d == 0 {
        '0'
    } else if d == 1 {
        '1'
    } else if d == 2 {
        '2'
    } else if d == 3 {
        '3'
    } else if d == 4 {
        '4'
    } else if d == 5 {
        '5'
    } else if d == 6 {
        '6'
    } else if d == 7 {
        '7'
    } else if d == 8 {
        '8'
    } else {
        '9'
    }
}

fn push_digits(s: &mut String, n: u64)
    ensures
        final(s)@ == old(s)@ + digits(n as nat),
    decreases n,
{
    if n >= 10 {
        push_digits(s, n / 10);
    }
    push_char(s, digit_of(n % 10));
}

/// Writes `n` in decimal.
pub fn decimal_string(n: i64) -> (s: String)
    ensures
        s@ == decimal(n as int),
{
    let mut s = String::new();
    if n < 0 {
        let magnitude: u64 = (-(n + 1)) as u64 + 1;
        push_char(&mut s, '-');
        push_digits(&mut s, magnitude);
    } else {
        push_digits(&mut s, n as u64);
    }
    s
}

// ---------------------------------------------------------------------------
// Fields
// ---------------------------------------------------------------------------

/// The length of the longest prefix of `s` that holds no `sep`.
pub open spec fn field_len(s: Seq<char>, sep: char) -> nat
    decreases s.len(),
{
    if s.len() == 0 || s[0] == sep {
        0
    } else {
        1 + field_len(s.skip(1), sep)
    }
}

/// The fields of `s`: what stands before its first `sep`, between each
/// `sep` and the next, and behind its last, from left to right. Text with
/// `n` separators has `n + 1` fields, and any of them may be empty.
pub open spec fn fields(s: Seq<char>, sep: char) -> Seq<Seq<char>>
    decreases s.len(),
{
    let n = field_len(s, sep);
    if n >= s.len() {
        seq![s]
    } else {
        seq![s.take(n as int)] + fields(s.skip(n as int + 1), sep)
    }
}

/// A prefix of `n` characters without `sep` that ends the text, or is
/// followed by `sep`, is the first field.
pub proof fn lemma_field_len(s: Seq<char>, sep: char, n: nat)
    requires
        n <= s.len(),
        forall|k: int| 0 <= k < n ==> s[k] != sep,
        n == s.len() || s[n as int] == sep,
    ensures
        field_len(s, sep) == n,
    decreases n,
{
    if n > 0 {
        let t = s.skip(1);
        assert forall|k: int| 0 <= k < n - 1 implies t[k] != sep by {
            assert(t[k] == s[k + 1]);
        }
        lemma_field_len(t, sep, (n - 1) as nat);
    }
}

/// Splits `s` at each `sep`.
pub fn split_fields(s: &str, sep: char) -> (out: Vec<String>)
    ensures
        out.deep_view() == fields(s@, sep),
{
    let cs = chars_of(s);
    let n = cs.len();
    let mut out: Vec<String> = Vec::new();
    let mut i: usize = 0;
    assert(cs@.skip(0) =~= cs@);
    assert(out.deep_view() =~= Seq::<Seq<char>>::empty());
    loop
        invariant_except_break
            i <= n,
            out.deep_view() + fields(cs@.skip(i as int), sep) == fields(cs@, sep),
        invariant
            n == cs.len(),
            cs@ == s@,
        ensures
            out.deep_view() == fields(s@, sep),
        decreases n - i,
    {
        let ghost rest = cs@.skip(i as int);
        let mut j: usize = i;
        while j < n && cs[j] != sep
            invariant
                n == cs.len(),
                i <= j <= n,
                forall|k: int| i <= k < j ==> cs@[k] != sep,
            decreases n - j,
        {
            j += 1;
        }
        let field = string_of(&cs, i, j);
        let ghost before = out.deep_view();
        proof {
            lemma_field_len(rest, sep, (j - i) as nat);
            assert(rest.take(j - i) =~= cs@.subrange(i as int, j as int));
        }
        out.push(field);
        assert(out.deep_view() =~= before.push(field@));
        if j == n {
            proof {
                assert(rest =~= cs@.subrange(i as int, n as int));
                assert(fields(rest, sep) =~= seq![field@]);
                assert(before.push(field@) =~= before + seq![field@]);
            }
            break ;
        }
        proof {
            assert(rest.skip(j - i + 1) =~= cs@.skip(j + 1));
            assert(fields(rest, sep) == seq![field@] + fields(cs@.skip(j + 1), sep));
            assert(before.push(field@) + fields(cs@.skip(j + 1), sep) =~= before + (seq![
                field@,
            ] + fields(cs@.skip(j + 1), sep)));
        }
        i = j + 1;
    }
    out
}

// ---------------------------------------------------------------------------
// Vectors, seen through the text of their elements
// ---------------------------------------------------------------------------

/// Appends a copy of `s` to `v`.
pub fn push_text(v: &mut Vec<String>, s: &str)
    ensures
        final(v).deep_view() == old(v).deep_view().push(s@),
{
    v.push(s.to_owned());
    assert(v.deep_view() =~= old(v).deep_view().push(s@));
}

/// Appends `x` to `v`.
pub fn push_deep<T: DeepView>(v: &mut Vec<T>, x: T)
    ensures
        final(v).deep_view() == old(v).deep_view().push(x.deep_view()),
{
    let ghost item = x.deep_view();
    v.push(x);
    assert(v.deep_view() =~= old(v).deep_view().push(item));
}

/// Moves the elements of `more` to the end of `v`.
pub fn append_deep<T: DeepView>(v: &mut Vec<T>, more: Vec<T>)
    ensures
        final(v).deep_view() == old(v).deep_view() + more.deep_view(),
{
    let mut more = more;
    let ghost tail = more.deep_view();
    let ghost tail_items = more@;
    v.append(&mut more);
    assert(v@ == old(v)@ + tail_items);
    assert(v.deep_view() =~= old(v).deep_view() + tail);
}

} // verus!
