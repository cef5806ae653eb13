//! Small string helpers over `String`, `&str` and character vectors.
use vstd::prelude::*;
use vstd::std_specs::iter::IteratorSpec;
use vstd::utf8::{decode_utf8, encode_utf8, is_char_boundary};

verus! {

broadcast use vstd::string::group_string_axioms;

/// The characters of every string of a sequence.
pub open spec fn strings_view(v: Seq<String>) -> Seq<Seq<char>> {
    Seq::new(v.len(), |i: int| v[i]@)
}

/// The characters of every character vector of a sequence.
pub open spec fn char_vecs_view(v: Seq<Vec<char>>) -> Seq<Seq<char>> {
    Seq::new(v.len(), |i: int| v[i]@)
}

/// The characters of an optional string slice.
pub open spec fn opt_str_view(o: Option<&str>) -> Option<Seq<char>> {
    match o {
        Some(s) => Some(s@),
        None => None,
    }
}

/// Calls `String::push`. Trusted, as std documents it: the character is
/// appended to the string.
#[verifier::external_body]
pub(crate) fn push_char(s: &mut String, c: char)
    ensures
        final(s)@ == old(s)@.push(c),
{
    s.push(c);
}

/// Appends the characters of a string slice to a string.
pub fn push_str(s: &mut String, other: &str)
    ensures
        final(s)@ == old(s)@ + other@,
{
    s.append(other);
}

/// An owned copy of a string slice.
pub fn owned(s: &str) -> (res: String)
    ensures
        res@ == s@,
{
    s.to_owned()
}

/// The characters of a string slice, in order.
pub fn chars_of(s: &str) -> (res: Vec<char>)
    ensures
        res@ == s@,
{
    let mut res: Vec<char> = Vec::new();
    let mut it = s.chars();
    loop
        invariant
            res@ + it.remaining() == s@,
            it.decrease() is Some,
        ensures
            res@ == s@,
        decreases it.decrease()->0,
    {
        let ghost before = it.remaining();
        match it.next() {
            Some(c) => {
                res.push(c);
                assert(res@ + it.remaining() =~= s@) by {
                    assert(before =~= seq![c] + it.remaining());
                }
            },
            None => {
                assert(res@ =~= s@);
                break;
            },
        }
    }
    res
}

/// A string made of the characters of a sequence slice `v[from..to]`.
pub fn string_from_chars(v: &Vec<char>, from: usize, to: usize) -> (res: String)
    requires
        from <= to <= v@.len(),
    ensures
        res@ == v@.subrange(from as int, to as int),
{
    let mut res = String::new();
    let mut i: usize = from;
    while i < to
        invariant
            from <= i <= to <= v@.len(),
            res@ == v@.subrange(from as int, i as int),
        decreases to - i,
    {
        push_char(&mut res, v[i]);
        assert(res@ =~= v@.subrange(from as int, i + 1));
        i = i + 1;
    }
    res
}

/// Whether two character sequences are equal.
pub fn chars_eq(a: &Vec<char>, b: &Vec<char>) -> (res: bool)
    ensures
        res == (a@ == b@),
{
    if a.len() != b.len() {
        return false;
    }
    let mut i: usize = 0;
    while i < a.len()
        invariant
            a@.len() == b@.len(),
            i <= a@.len(),
            forall|j: int| 0 <= j < i ==> a@[j] == b@[j],
        decreases a@.len() - i,
    {
        if a[i] != b[i] {
            return false;
        }
        i = i + 1;
    }
    assert(a@ =~= b@);
    true
}

/// Whether two strings are equal.
pub fn str_eq(a: &str, b: &str) -> (res: bool)
    ensures
        res == (a@ == b@),
{
    let x = chars_of(a);
    let y = chars_of(b);
    chars_eq(&x, &y)
}

/// Whether `s` starts with `prefix`.
pub open spec fn is_prefix(prefix: Seq<char>, s: Seq<char>) -> bool {
    prefix.len() <= s.len() && s.take(prefix.len() as int) == prefix
}

/// Whether `s` starts with `prefix`.
pub fn starts_with(s: &str, prefix: &str) -> (res: bool)
    ensures
        res == is_prefix(prefix@, s@),
{
    let x = chars_of(s);
    let p = chars_of(prefix);
    if p.len() > x.len() {
        return false;
    }
    let mut i: usize = 0;
    while i < p.len()
        invariant
            x@ == s@,
            p@ == prefix@,
            p@.len() <= x@.len(),
            i <= p@.len(),
            forall|j: int| 0 <= j < i ==> p@[j] == x@[j],
        decreases p@.len() - i,
    {
        if p[i] != x[i] {
            assert(x@.take(p@.len() as int)[i as int] != p@[i as int]);
            assert(x@.take(p@.len() as int) != p@);
            return false;
        }
        i = i + 1;
    }
    assert(x@.take(p@.len() as int) =~= p@);
    true
}

/// The text that `String::from_utf8_lossy` makes of `bytes`: each invalid
/// sequence becomes U+FFFD.
pub uninterp spec fn utf8_lossy(bytes: Seq<u8>) -> Seq<char>;

/// Calls `String::from_utf8_lossy`. Trusted: the text is the named lossy
/// decoding of the bytes, and for valid UTF-8 it is exactly the characters
/// the bytes encode, as std documents.
#[verifier::external_body]
pub(crate) fn string_from_utf8_lossy(bytes: &[u8]) -> (res: String)
    ensures
        res@ == utf8_lossy(bytes@),
        vstd::utf8::valid_utf8(bytes@) ==> res@ == vstd::utf8::decode_utf8(bytes@),
{
    String::from_utf8_lossy(bytes).into_owned()
}

/// Whether `s` ends with a carriage return and a line feed.
pub open spec fn ends_with_crlf(s: Seq<char>) -> bool {
    s.len() >= 2 && s[s.len() - 2] == '\r' && s[s.len() - 1] == '\n'
}

/// Whether `s` ends with a carriage return and a line feed.
pub fn ends_with_crlf_exec(s: &str) -> (res: bool)
    ensures
        res == ends_with_crlf(s@),
{
    let v = chars_of(s);
    let n = v.len();
    n >= 2 && v[n - 2] == '\r' && v[n - 1] == '\n'
}

/// The decimal digit for `d`.
pub open spec fn digit_char(d: nat) -> char {
    (('0' as u32) + d) as char
}

/// The decimal spelling of `n`, without leading zeros.
pub open spec fn decimal(n: nat) -> Seq<char>
    decreases n,
{
    if n < 10 {
        seq![digit_char(n)]
    } else {
        decimal(n / 10) + seq![digit_char(n % 10)]
    }
}

/// The decimal spelling of `n`.
pub fn decimal_string(n: u64) -> (res: String)
    ensures
        res@ == decimal(n as nat),
{
    let mut digits: Vec<char> = Vec::new();
    let mut m: u64 = n;
    loop
        invariant_except_break
            decimal(n as nat) == decimal(m as nat) + digits@.reverse(),
        ensures
            decimal(n as nat) == digits@.reverse(),
        decreases m,
    {
        let d: u64 = m % 10;
        let c: char = char_of_digit(d);
        let ghost before = digits@;
        digits.push(c);
        assert(digits@.reverse() =~= seq![c] + before.reverse());
        if m < 10 {
            assert(decimal(m as nat) == seq![c]);
            assert(decimal(n as nat) =~= digits@.reverse());
            break;
        }
        assert(decimal(m as nat) == decimal((m / 10) as nat) + seq![c]);
        assert(decimal(n as nat) =~= decimal((m / 10) as nat) + digits@.reverse());
        m = m / 10;
    }
    let mut res = String::new();
    let mut i: usize = digits.len();
    while i > 0
        invariant
            i <= digits@.len(),
            res@ == digits@.reverse().take(digits@.len() - i),
        decreases i,
    {
        i = i - 1;
        push_char(&mut res, digits[i]);
        assert(res@ =~= digits@.reverse().take(digits@.len() - i));
    }
    assert(digits@.reverse().take(digits@.len() as int) =~= digits@.reverse());
    res
}

fn char_of_digit(d: u64) -> (res: char)
    requires
        d < 10,
    ensures
        res == digit_char(d as nat),
{
    if d == 0 { '0' } else if d == 1 { '1' } else if d == 2 { '2' } else if d == 3 { '3' } else if d == 4 {
        '4'
    } else if d == 5 { '5' } else if d == 6 { '6' } else if d == 7 { '7' } else if d == 8 { '8' } else { '9' }
}

/// `n` spaces.
pub open spec fn spaces(n: nat) -> Seq<char> {
    Seq::new(n, |i: int| ' ')
}

/// `s` followed by spaces up to `width` characters, as `format!("{:<width$}", s)` lays it out.
pub open spec fn pad_right(s: Seq<char>, width: nat) -> Seq<char> {
    if s.len() < width { s + spaces((width - s.len()) as nat) } else { s }
}

/// Appends `s` and then spaces up to `width` characters.
pub fn push_padded(out: &mut String, s: &str, width: usize)
    ensures
        final(out)@ == old(out)@ + pad_right(s@, width as nat),
{
    let v = chars_of(s);
    push_str(out, s);
    let mut k: usize = v.len();
    let ghost base = out@;
    while k < width
        invariant
            v@ == s@,
            v@.len() <= k <= width || k == v@.len() && width <= v@.len(),
            out@ == base + spaces((k - v@.len()) as nat),
        decreases width - k,
    {
        push_char(out, ' ');
        assert(out@ =~= base + spaces((k + 1 - v@.len()) as nat));
        k = k + 1;
    }
    proof {
        if v@.len() < width {
            assert(k == width);
        } else {
            assert(out@ =~= base);
        }
        assert(out@ =~= old(out)@ + pad_right(s@, width as nat));
    }
}

/// The UTF-8 encoding of a concatenation is the concatenation of the encodings.
pub proof fn lemma_encode_concat(a: Seq<char>, b: Seq<char>)
    ensures
        encode_utf8(a + b) == encode_utf8(a) + encode_utf8(b),
    decreases a.len(),
{
    if a.len() > 0 {
        lemma_encode_concat(a.drop_first(), b);
        assert((a + b).drop_first() =~= a.drop_first() + b);
        assert((a + b)[0] == a[0]);
    } else {
        assert(a + b =~= b);
    }
}

/// The end of an encoded prefix is a character boundary of the whole.
pub proof fn lemma_boundary_after_prefix(a: Seq<char>, b: Seq<char>)
    ensures
        is_char_boundary(encode_utf8(a + b), encode_utf8(a).len() as int),
    decreases a.len(),
{
    broadcast use vstd::utf8::encode_utf8_valid_utf8;

    if a.len() > 0 {
        let ab = a + b;
        lemma_boundary_after_prefix(a.drop_first(), b);
        assert(ab.drop_first() =~= a.drop_first() + b);
        vstd::utf8::encode_utf8_first_scalar(ab);
        assert(vstd::utf8::pop_first_scalar(encode_utf8(ab)) =~= encode_utf8(ab.drop_first()));
        assert(ab[0] == a[0]);
    }
}

/// The number of bytes of the UTF-8 encoding of `s`.
pub open spec fn byte_len(s: Seq<char>) -> nat {
    encode_utf8(s).len()
}

/// The number of bytes of `s`.
pub fn byte_count(s: &str) -> (res: usize)
    ensures
        res == byte_len(s@),
{
    s.as_bytes().len()
}

/// The characters encoded in the first `k` bytes of `s`.
pub open spec fn before_byte(s: Seq<char>, k: int) -> Seq<char> {
    decode_utf8(encode_utf8(s).take(k))
}

/// The characters encoded after the first `k` bytes of `s`.
pub open spec fn after_byte(s: Seq<char>, k: int) -> Seq<char> {
    decode_utf8(encode_utf8(s).skip(k))
}

/// Splitting `a + b` after the bytes of `a` gives `a` and `b` back, at a
/// character boundary.
pub proof fn lemma_split_chars(a: Seq<char>, b: Seq<char>)
    ensures
        before_byte(a + b, byte_len(a) as int) == a,
        after_byte(a + b, byte_len(a) as int) == b,
        is_char_boundary(encode_utf8(a + b), byte_len(a) as int),
        byte_len(a + b) == byte_len(a) + byte_len(b),
{
    broadcast use vstd::utf8::encode_utf8_decode_utf8;

    lemma_encode_concat(a, b);
    lemma_boundary_after_prefix(a, b);
    assert(encode_utf8(a + b).take(byte_len(a) as int) =~= encode_utf8(a));
    assert(encode_utf8(a + b).skip(byte_len(a) as int) =~= encode_utf8(b));
}

/// A boundary before `b` stays a boundary of the characters before `b`.
pub proof fn lemma_boundary_in_prefix(s: Seq<char>, a: int, b: int)
    requires
        0 <= a <= b,
        is_char_boundary(encode_utf8(s), a),
        is_char_boundary(encode_utf8(s), b),
    ensures
        b <= encode_utf8(s).len(),
        encode_utf8(before_byte(s, b)) == encode_utf8(s).take(b),
        is_char_boundary(encode_utf8(before_byte(s, b)), a),
{
    broadcast use vstd::utf8::encode_utf8_valid_utf8;

    let bytes = encode_utf8(s);
    vstd::utf8::is_char_boundary_start_end_of_seq(bytes);
    assert(b <= bytes.len()) by {
        if b > bytes.len() {
            reveal_with_fuel(is_char_boundary, 1);
        }
    }
    vstd::utf8::valid_utf8_split(bytes, b);
    assert(bytes.subrange(0, b) =~= bytes.take(b));
    vstd::utf8::decode_utf8_encode_utf8(bytes.take(b));
    let t = bytes.take(b);
    vstd::utf8::is_char_boundary_start_end_of_seq(t);
    if 0 < a < b {
        vstd::utf8::is_char_boundary_iff_not_is_continuation_byte(bytes, a);
        vstd::utf8::is_char_boundary_iff_not_is_continuation_byte(t, a);
    }
}

/// The characters between two boundaries `a` and `b` of `s`.
pub fn byte_slice_exec(s: &str, a: usize, b: usize) -> (res: String)
    requires
        a <= b,
        is_char_boundary(encode_utf8(s@), a as int),
        is_char_boundary(encode_utf8(s@), b as int),
    ensures
        res@ == decode_utf8(encode_utf8(s@).subrange(a as int, b as int)),
{
    let (head, _rest) = split_at_byte(s, b);
    proof {
        lemma_boundary_in_prefix(s@, a as int, b as int);
    }
    let (_lead, mid) = split_at_byte(head.as_str(), a);
    assert(encode_utf8(head@).skip(a as int) =~= encode_utf8(s@).subrange(a as int, b as int));
    mid
}

/// One more character adds the length of its encoding.
pub proof fn lemma_byte_len_push(s: Seq<char>, c: char)
    ensures
        byte_len(s.push(c)) == byte_len(s) + vstd::utf8::encode_scalar(c as u32).len(),
{
    lemma_encode_concat(s, seq![c]);
    assert(s + seq![c] =~= s.push(c));
    assert(seq![c].drop_first() =~= Seq::<char>::empty());
    assert(encode_utf8(Seq::<char>::empty()) =~= Seq::<u8>::empty());
    assert(seq![c][0] == c);
    assert(encode_utf8(seq![c]) == vstd::utf8::encode_scalar(c as u32) + encode_utf8(seq![c].drop_first()));
    assert(encode_utf8(seq![c]) =~= vstd::utf8::encode_scalar(c as u32));
}

/// The number of bytes of the UTF-8 encoding of `c`.
pub fn char_len(c: char) -> (res: usize)
    ensures
        res == vstd::utf8::encode_scalar(c as u32).len(),
        1 <= res <= 4,
{
    proof {
        vstd::utf8::char_is_scalar(c);
    }
    let v = c as u32;
    if v <= 0x7f {
        1
    } else if v <= 0x7ff {
        2
    } else if v <= 0xffff {
        3
    } else {
        4
    }
}

/// Splits `s` at byte `mid`, which must start a character (or be its end):
/// the characters before and from there.
pub fn split_at_byte(s: &str, mid: usize) -> (res: (String, String))
    requires
        is_char_boundary(encode_utf8(s@), mid as int),
    ensures
        res.0@ + res.1@ == s@,
        encode_utf8(res.0@).len() == mid,
        res.0@ == before_byte(s@, mid as int),
        res.1@ == after_byte(s@, mid as int),
{
    broadcast use vstd::utf8::encode_utf8_valid_utf8, vstd::utf8::encode_utf8_decode_utf8;

    let (a, b) = s.split_at(mid);
    proof {
        let bytes = encode_utf8(s@);
        vstd::utf8::decode_utf8_split(bytes, mid as int);
        assert(decode_utf8(encode_utf8(a@)) == a@);
        assert(decode_utf8(encode_utf8(b@)) == b@);
        assert(decode_utf8(bytes) == s@);
        lemma_split_chars(a@, b@);
    }
    (owned(a), owned(b))
}

} // verus!
