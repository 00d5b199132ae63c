//! Text helpers shared by the renderer, the search and the picker: UTF-8
//! widths, decimal numbers, repetition, padding and line splitting, all stated
//! over `Seq<char>`.
use vstd::prelude::*;

verus! {

broadcast use vstd::string::group_string_axioms;

/// Number of bytes in the UTF-8 encoding of `c`.
pub open spec fn char_utf8_len(c: char) -> nat {
    if (c as u32) < 0x80 {
        1
    } else if (c as u32) < 0x800 {
        2
    } else if (c as u32) < 0x10000 {
        3
    } else {
        4
    }
}

/// `c` in lower case where it is an ASCII capital letter, else `c`.
pub open spec fn ascii_lower(c: char) -> char {
    if 65 <= (c as u32) <= 90 {
        ((c as u32) + 32) as char
    } else {
        c
    }
}

/// `c` in upper case where it is an ASCII small letter, else `c`.
pub open spec fn ascii_upper(c: char) -> char {
    if 97 <= (c as u32) <= 122 {
        ((c as u32) - 32) as char
    } else {
        c
    }
}

/// Every character of `s` is ASCII.
pub open spec fn is_ascii_text(s: Seq<char>) -> bool {
    forall|i: int| 0 <= i < s.len() ==> (#[trigger] s[i] as u32) < 128
}

/// Number of bytes in the UTF-8 encoding of `s`.
pub open spec fn utf8_len(s: Seq<char>) -> nat
    decreases s.len(),
{
    if s.len() == 0 {
        0
    } else {
        utf8_len(s.drop_last()) + char_utf8_len(s.last())
    }
}

/// The byte length is additive over concatenation.
pub proof fn lemma_utf8_len_concat(a: Seq<char>, b: Seq<char>)
    ensures
        utf8_len(a + b) == utf8_len(a) + utf8_len(b),
    decreases b.len(),
{
    if b.len() == 0 {
        assert(a + b =~= a);
    } else {
        assert((a + b).drop_last() =~= a + b.drop_last());
        lemma_utf8_len_concat(a, b.drop_last());
    }
}

/// The byte length of a one-character sequence.
pub proof fn lemma_utf8_len_single(c: char)
    ensures
        utf8_len(seq![c]) == char_utf8_len(c),
{
    assert(seq![c].drop_last() =~= Seq::<char>::empty());
    assert(seq![c].last() == c);
    assert(utf8_len(Seq::<char>::empty()) == 0);
}

/// `utf8_len` agrees with the length of vstd's UTF-8 encoding.
pub proof fn lemma_utf8_len_encoding(s: Seq<char>)
    ensures
        vstd::utf8::encode_utf8(s).len() == utf8_len(s),
    decreases s.len(),
{
    if s.len() > 0 {
        lemma_utf8_len_encoding(s.drop_first());
        assert(s =~= seq![s[0]] + s.drop_first());
        lemma_utf8_len_concat(seq![s[0]], s.drop_first());
        lemma_utf8_len_single(s[0]);
        vstd::utf8::char_is_scalar(s[0]);
    }
}

/// Byte offsets grow with the number of characters taken.
pub proof fn lemma_utf8_len_take_mono(s: Seq<char>, i: int, j: int)
    requires
        0 <= i <= j <= s.len(),
    ensures
        utf8_len(s.take(i)) <= utf8_len(s.take(j)),
        i < j ==> utf8_len(s.take(i)) < utf8_len(s.take(j)),
    decreases j - i,
{
    if i < j {
        assert(s.take(j).drop_last() =~= s.take(j - 1));
        lemma_utf8_len_take_mono(s, i, j - 1);
    }
}

/// Taking one more character adds that character's width.
pub proof fn lemma_utf8_len_take_step(s: Seq<char>, i: int)
    requires
        0 <= i < s.len(),
    ensures
        utf8_len(s.take(i + 1)) == utf8_len(s.take(i)) + char_utf8_len(s[i]),
{
    assert(s.take(i + 1).drop_last() =~= s.take(i));
}

/// Byte length of a `&str`, as `str::len` reports it.
pub fn str_byte_len(s: &str) -> (n: usize)
    ensures
        n == utf8_len(s@) as usize,
{
    proof {
        lemma_utf8_len_encoding(s@);
    }
    s.len()
}

/// Number of bytes in the UTF-8 encoding of `c`.
pub fn char_len_utf8(c: char) -> (n: usize)
    ensures
        n == char_utf8_len(c),
        1 <= n <= 4,
{
    let u = c as u32;
    if u < 0x80 {
        1
    } else if u < 0x800 {
        2
    } else if u < 0x10000 {
        3
    } else {
        4
    }
}

/// Appends one character to a `String` (`String::push`).
#[verifier::external_body]
pub(crate) fn push_char(s: &mut String, c: char)
    ensures
        final(s)@ == old(s)@.push(c),
{
    s.push(c);
}

/// Appends a string slice to a `String` (`String::push_str`).
#[verifier::external_body]
pub(crate) fn push_str(s: &mut String, t: &str)
    ensures
        final(s)@ == old(s)@ + t@,
{
    s.push_str(t);
}

/// `String::pop`: removes the last character of `s` and returns it.
#[verifier::external_body]
pub(crate) fn pop_last_char(s: &mut String) -> (r: Option<char>)
    ensures
        old(s)@.len() == 0 ==> r is None && final(s)@ == old(s)@,
        old(s)@.len() > 0 ==> r == Some(old(s)@.last()) && final(s)@ == old(s)@.drop_last(),
{
    s.pop()
}

/// The characters of `s`, in order.
pub fn chars_of(s: &str) -> (v: Vec<char>)
    ensures
        v@ == s@,
{
    let n = s.unicode_len();
    let mut v: Vec<char> = Vec::new();
    let mut i: usize = 0;
    while i < n
        invariant
            n == s@.len(),
            i <= n,
            v@ == s@.take(i as int),
        decreases n - i,
    {
        v.push(s.get_char(i));
        i = i + 1;
        assert(v@ =~= s@.take(i as int));
    }
    assert(s@.take(n as int) =~= s@);
    v
}

/// A `String` holding exactly the characters `cs[from..to]`.
pub fn string_of(cs: &Vec<char>, from: usize, to: usize) -> (s: String)
    requires
        from <= to <= cs.len(),
    ensures
        s@ == cs@.subrange(from as int, to as int),
{
    let mut s = String::new();
    let mut i = from;
    while i < to
        invariant
            from <= i <= to <= cs.len(),
            s@ == cs@.subrange(from as int, i as int),
        decreases to - i,
    {
        push_char(&mut s, cs[i]);
        i = i + 1;
        assert(s@ =~= cs@.subrange(from as int, i as int));
    }
    s
}

/// `s` repeated `n` times.
pub open spec fn repeat(s: Seq<char>, n: nat) -> Seq<char>
    decreases n,
{
    if n == 0 {
        Seq::empty()
    } else {
        repeat(s, (n - 1) as nat) + s
    }
}

/// Appends `t` to `out` `n` times.
pub fn push_repeat(out: &mut String, t: &str, n: usize)
    ensures
        final(out)@ == old(out)@ + repeat(t@, n as nat),
{
    let ghost start = out@;
    let mut i: usize = 0;
    while i < n
        invariant
            i <= n,
            out@ == start + repeat(t@, i as nat),
        decreases n - i,
    {
        push_str(out, t);
        i = i + 1;
        assert(out@ =~= start + repeat(t@, i as nat));
    }
}

/// `str::repeat`: `t` repeated `n` times.
pub fn repeat_str(t: &str, n: usize) -> (s: String)
    ensures
        s@ == repeat(t@, n as nat),
{
    let mut s = String::new();
    push_repeat(&mut s, t, n);
    assert(s@ =~= repeat(t@, n as nat));
    s
}

/// The decimal digit for `d`.
pub open spec fn digit_char(d: nat) -> char {
    if d == 0 {
        '0'
    } else if d == 1 {
        '1'
    } else if d == 2 {
        '2'
    } else if d == 3 {
        '3'
    } else if d == 4 {
        '4'
    } else if d == 5 {
        '5'
    } else if d == 6 {
        '6'
    } else if d == 7 {
        '7'
    } else if d == 8 {
        '8'
    } else {
        '9'
    }
}

/// The decimal notation of `n`, as `format!("{n}")` writes it.
pub open spec fn decimal(n: nat) -> Seq<char>
    decreases n,
{
    if n < 10 {
        seq![digit_char(n)]
    } else {
        decimal(n / 10).push(digit_char(n % 10))
    }
}

fn digit(d: u64) -> (c: char)
    requires
        d < 10,
    ensures
        c == digit_char(d as nat),
{
    if d == 0 {
        '0'
    } else if d == 1 {
        '1'
    } else if d == 2 {
        '2'
    } else if d == 3 {
        '3'
    } else if d == 4 {
        '4'
    } else if d == 5 {
        '5'
    } else if d == 6 {
        '6'
    } else if d == 7 {
        '7'
    } else if d == 8 {
        '8'
    } else {
        '9'
    }
}

/// Appends the decimal notation of `n` to `s`.
pub fn push_decimal(s: &mut String, n: u64)
    ensures
        final(s)@ == old(s)@ + decimal(n as nat),
    decreases n,
{
    if n >= 10 {
        push_decimal(s, n / 10);
    }
    push_char(s, digit(n % 10));
    assert(s@ =~= old(s)@ + decimal(n as nat)) by {
        if n < 10 {
            assert(decimal(n as nat) =~= seq![digit_char(n as nat)]);
        }
    }
}

/// The decimal notation of `n`.
pub fn decimal_string(n: u64) -> (s: String)
    ensures
        s@ == decimal(n as nat),
{
    let mut s = String::new();
    push_decimal(&mut s, n);
    assert(s@ =~= decimal(n as nat));
    s
}

/// `s` right-aligned in a field of `width` characters (`{:>width$}`).
pub open spec fn pad_left(s: Seq<char>, width: nat) -> Seq<char> {
    if s.len() >= width {
        s
    } else {
        repeat(seq![' '], (width - s.len()) as nat) + s
    }
}

/// `s` left-aligned in a field of `width` characters (`{:<width$}`).
pub open spec fn pad_right(s: Seq<char>, width: nat) -> Seq<char> {
    if s.len() >= width {
        s
    } else {
        s + repeat(seq![' '], (width - s.len()) as nat)
    }
}

/// Appends `t` left-aligned in a field of `width` characters.
pub fn push_padded_right(out: &mut String, t: &str, width: usize)
    ensures
        final(out)@ == old(out)@ + pad_right(t@, width as nat),
{
    let ghost start = out@;
    proof {
        reveal_strlit(" ");
        assert(" "@ =~= seq![' ']);
    }
    let n = t.unicode_len();
    push_str(out, t);
    if n < width {
        push_repeat(out, " ", width - n);
        assert(out@ =~= start + pad_right(t@, width as nat));
    } else {
        assert(out@ =~= start + pad_right(t@, width as nat));
    }
}

/// Appends the decimal notation of `n` right-aligned in `width` characters.
pub fn push_decimal_padded_left(out: &mut String, n: u64, width: usize)
    ensures
        final(out)@ == old(out)@ + pad_left(decimal(n as nat), width as nat),
{
    let ghost start = out@;
    proof {
        reveal_strlit(" ");
        assert(" "@ =~= seq![' ']);
    }
    let d = decimal_string(n);
    let len = d.as_str().unicode_len();
    if len < width {
        push_repeat(out, " ", width - len);
    }
    push_str(out, d.as_str());
    assert(out@ =~= start + pad_left(decimal(n as nat), width as nat));
}

/// Whether two strings are equal.
pub fn str_eq(a: &str, b: &str) -> (r: bool)
    ensures
        r == (a@ == b@),
{
    let x = chars_of(a);
    let y = chars_of(b);
    assert(x@ == a@ && y@ == b@);
    if x.len() != y.len() {
        return false;
    }
    let mut i: usize = 0;
    while i < x.len()
        invariant
            i <= x.len(),
            x.len() == y.len(),
            x@ == a@,
            y@ == b@,
            forall|j: int| 0 <= j < i ==> x@[j] == y@[j],
        decreases x.len() - i,
    {
        if x[i] != y[i] {
            assert(x@[i as int] != y@[i as int]);
            return false;
        }
        i = i + 1;
    }
    assert(x@ =~= y@);
    true
}

} // verus!
