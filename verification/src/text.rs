//! Text: what the library computes on strings, and the functions of std it relies on.
//!
//! A text is modelled by its sequence of characters.
use vstd::prelude::*;
use vstd::string::*;
use vstd::utf8::*;

verus! {

// ---------------------------------------------------------------------------------------------
// Functions of std
// ---------------------------------------------------------------------------------------------

/// What [`str::to_lowercase`] makes of a text.
pub uninterp spec fn lowercase(s: Seq<char>) -> Seq<char>;

/// What [`str::to_uppercase`] makes of a text.
pub uninterp spec fn uppercase(s: Seq<char>) -> Seq<char>;

/// What [`String::from_utf8_lossy`] makes of a run of bytes.
pub uninterp spec fn utf8_lossy(b: Seq<u8>) -> Seq<char>;

/// What [`String::from_utf16_lossy`] makes of a run of UTF-16 code units.
pub uninterp spec fn utf16_lossy(u: Seq<u16>) -> Seq<char>;

/// `str::to_lowercase`: the lower case of the text, which depends on the text alone.
pub assume_specification[ str::to_lowercase ](s: &str) -> (r: String)
    ensures
        r@ == lowercase(s@),
;

/// `str::to_uppercase`: the upper case of the text, which depends on the text alone.
pub assume_specification[ str::to_uppercase ](s: &str) -> (r: String)
    ensures
        r@ == uppercase(s@),
;

/// The character has the Unicode property White_Space: the controls from tab to carriage return,
/// the space, the next line, and the spaces and separators outside ASCII.
pub open spec fn white_space(c: char) -> bool {
    let n = c as u32;
    ||| 0x09 <= n <= 0x0D
    ||| n == 0x20
    ||| n == 0x85
    ||| n == 0xA0
    ||| n == 0x1680
    ||| 0x2000 <= n <= 0x200A
    ||| n == 0x2028
    ||| n == 0x2029
    ||| n == 0x202F
    ||| n == 0x205F
    ||| n == 0x3000
}

/// `char::is_whitespace`: whether the character has the property White_Space.
pub assume_specification[ char::is_whitespace ](c: char) -> (r: bool)
    ensures
        r == white_space(c),
;

/// `String::from_utf16_lossy`: the decoded text, which depends on the code units alone.
pub assume_specification[ String::from_utf16_lossy ](v: &[u16]) -> (r: String)
    ensures
        r@ == utf16_lossy(v@),
;

/// `String::push` appends one character.
pub assume_specification[ String::push ](s: &mut String, c: char)
    ensures
        final(s)@ == old(s)@.push(c),
;

/// `String::from_utf8_lossy`: the decoded text, which depends on the bytes alone and is their
/// plain decoding where they are valid UTF-8.
#[verifier::external_body]
pub(crate) fn decode_lossy(b: &[u8]) -> (r: String)
    ensures
        r@ == utf8_lossy(b@),
        valid_utf8(b@) ==> r@ == decode_utf8(b@),
{
    String::from_utf8_lossy(b).into_owned()
}

// ---------------------------------------------------------------------------------------------
// Reading and comparing
// ---------------------------------------------------------------------------------------------

/// The characters of `s`, in order.
pub fn chars_of(s: &str) -> (r: Vec<char>)
    ensures
        r@ == s@,
{
    let mut r: Vec<char> = Vec::new();
    let ghost all = s@;
    for c in it: s.chars()
        invariant
            it.seq() == all,
            r@ == all.take(it.index() as int),
    {
        r.push(c);
    }
    assert(all.take(all.len() as int) =~= all);
    r
}

/// The text made of `chars[from..to]`.
pub fn text_of(chars: &Vec<char>, from: usize, to: usize) -> (r: String)
    requires
        from <= to <= chars@.len(),
    ensures
        r@ == chars@.subrange(from as int, to as int),
{
    let mut r = String::new();
    let mut i: usize = from;
    while i < to
        invariant
            from <= i <= to <= chars@.len(),
            r@ == chars@.subrange(from as int, i as int),
        decreases to - i,
    {
        r.push(chars[i]);
        i += 1;
    }
    r
}

/// Whether two texts hold the same characters.
pub fn same_text(a: &str, b: &str) -> (r: bool)
    ensures
        r == (a@ == b@),
{
    a.to_string() == b.to_string()
}

/// `needle` stands in `hay` at position `i`.
pub open spec fn occurs_at(hay: Seq<char>, needle: Seq<char>, i: int) -> bool {
    &&& 0 <= i
    &&& i + needle.len() <= hay.len()
    &&& hay.subrange(i, i + needle.len()) == needle
}

/// `needle` stands somewhere in `hay`.
pub open spec fn text_contains(hay: Seq<char>, needle: Seq<char>) -> bool {
    exists|i: int| #[trigger] occurs_at(hay, needle, i)
}

/// Whether `needle` stands in `hay` at position `i`.
fn matches_at(hay: &Vec<char>, needle: &Vec<char>, i: usize) -> (r: bool)
    requires
        i + needle@.len() <= hay@.len(),
    ensures
        r == occurs_at(hay@, needle@, i as int),
{
    let n: usize = needle.len();
    let len: usize = hay.len();
    let mut k: usize = 0;
    while k < n
        invariant
            k <= n == needle@.len(),
            i + n <= len == hay@.len(),
            forall|j: int| 0 <= j < k ==> hay@[i + j] == needle@[j],
        decreases n - k,
    {
        if hay[i + k] != needle[k] {
            assert(hay@.subrange(i as int, i + n)[k as int] != needle@[k as int]);
            return false;
        }
        k += 1;
    }
    assert(hay@.subrange(i as int, i + n) =~= needle@);
    true
}

/// The first position at which `needle` stands in `hay`.
pub fn find_text(hay: &Vec<char>, needle: &Vec<char>) -> (r: Option<usize>)
    ensures
        match r {
            Some(i) => occurs_at(hay@, needle@, i as int) && forall|j: int|
                0 <= j < i ==> !occurs_at(hay@, needle@, j),
            None => !text_contains(hay@, needle@),
        },
{
    let n: usize = needle.len();
    let len: usize = hay.len();
    if len < n {
        return None;
    }
    let last: usize = len - n;
    let mut i: usize = 0;
    loop
        invariant
            n == needle@.len(),
            len == hay@.len(),
            last + n == len,
            i <= last,
            forall|j: int| 0 <= j < i ==> !occurs_at(hay@, needle@, j),
        decreases last - i,
    {
        if matches_at(hay, needle, i) {
            return Some(i);
        }
        if i == last {
            return None;
        }
        i += 1;
    }
}

/// Whether `needle` stands somewhere in `hay`.
pub fn contains_text(hay: &str, needle: &str) -> (r: bool)
    ensures
        r == text_contains(hay@, needle@),
{
    let h = chars_of(hay);
    let n = chars_of(needle);
    find_text(&h, &n).is_some()
}

/// Whether `hay` ends in `tail`.
pub fn ends_with_text(hay: &str, tail: &str) -> (r: bool)
    ensures
        r == tail@.is_suffix_of(hay@),
{
    let h = chars_of(hay);
    let t = chars_of(tail);
    if h.len() < t.len() {
        return false;
    }
    matches_at(&h, &t, h.len() - t.len())
}

/// Whether `hay` begins with `head`.
pub fn starts_with_text(hay: &str, head: &str) -> (r: bool)
    ensures
        r == head@.is_prefix_of(hay@),
{
    let h = chars_of(hay);
    let t = chars_of(head);
    if h.len() < t.len() {
        return false;
    }
    matches_at(&h, &t, 0)
}

// ---------------------------------------------------------------------------------------------
// Parts of a text
// ---------------------------------------------------------------------------------------------

/// `s` without its leading white space.
pub open spec fn trim_front(s: Seq<char>) -> Seq<char>
    decreases s.len(),
{
    if s.len() > 0 && white_space(s[0]) {
        trim_front(s.drop_first())
    } else {
        s
    }
}

/// `s` without its trailing white space.
pub open spec fn trim_back(s: Seq<char>) -> Seq<char>
    decreases s.len(),
{
    if s.len() > 0 && white_space(s.last()) {
        trim_back(s.drop_last())
    } else {
        s
    }
}

/// `s` without white space at either end.
pub open spec fn trimmed(s: Seq<char>) -> Seq<char> {
    trim_back(trim_front(s))
}

/// `s` without white space at either end.
pub fn trim_text(s: &str) -> (r: String)
    ensures
        r@ == trimmed(s@),
{
    let c = chars_of(s);
    let n: usize = c.len();
    let mut from: usize = 0;
    assert(c@.skip(0) =~= c@);
    while from < n && c[from].is_whitespace()
        invariant
            from <= n == c@.len(),
            trim_front(c@.skip(from as int)) == trim_front(c@),
        decreases n - from,
    {
        assert(c@.skip(from as int).drop_first() =~= c@.skip(from + 1));
        from += 1;
    }
    let mut to: usize = n;
    let ghost front = trim_front(c@);
    assert(c@.subrange(from as int, n as int) =~= c@.skip(from as int));
    while from < to && c[to - 1].is_whitespace()
        invariant
            from <= to <= n == c@.len(),
            trim_back(c@.subrange(from as int, to as int)) == trim_back(front),
        decreases to - from,
    {
        assert(c@.subrange(from as int, to as int).drop_last() =~= c@.subrange(
            from as int,
            to - 1,
        ));
        to -= 1;
    }
    text_of(&c, from, to)
}

/// The part of `s` behind its last `sep`, or all of it where there is none.
pub open spec fn after_last(s: Seq<char>, sep: char) -> Seq<char>
    decreases s.len(),
{
    if s.len() == 0 {
        s
    } else if s.last() == sep {
        Seq::empty()
    } else {
        after_last(s.drop_last(), sep).push(s.last())
    }
}

/// The part of `s` behind its last `sep`, or all of it where there is none.
pub fn last_part(s: &str, sep: char) -> (r: String)
    ensures
        r@ == after_last(s@, sep),
{
    let c = chars_of(s);
    let n: usize = c.len();
    let mut from: usize = n;
    assert(c@.take(n as int) =~= c@);
    assert(c@.skip(n as int) =~= Seq::<char>::empty());
    assert(after_last(c@, sep) =~= after_last(c@.take(n as int), sep) + c@.skip(n as int));
    while from > 0 && c[from - 1] != sep
        invariant
            from <= n == c@.len(),
            after_last(c@, sep) == after_last(c@.take(from as int), sep) + c@.skip(from as int),
        decreases from,
    {
        assert(c@.take(from as int).drop_last() =~= c@.take(from - 1));
        assert(after_last(c@.take(from - 1), sep).push(c@[from - 1]) + c@.skip(from as int)
            =~= after_last(c@.take(from - 1), sep) + c@.skip(from - 1));
        from -= 1;
    }
    assert(after_last(c@.take(from as int), sep) =~= Seq::<char>::empty());
    assert(c@.subrange(from as int, n as int) =~= c@.skip(from as int));
    assert(Seq::<char>::empty() + c@.skip(from as int) =~= c@.skip(from as int));
    text_of(&c, from, n)
}

/// `s` with each `from` turned into `to`.
pub open spec fn replaced(s: Seq<char>, from: char, to: char) -> Seq<char> {
    s.map_values(
        |c: char|
            if c == from {
                to
            } else {
                c
            },
    )
}

/// `s` with each `from` turned into `to`.
pub fn replace_char(s: &str, from: char, to: char) -> (r: String)
    ensures
        r@ == replaced(s@, from, to),
{
    let c = chars_of(s);
    let n: usize = c.len();
    let mut r = String::new();
    let mut i: usize = 0;
    while i < n
        invariant
            i <= n == c@.len(),
            r@ == replaced(c@.take(i as int), from, to),
        decreases n - i,
    {
        if c[i] == from {
            r.push(to);
        } else {
            r.push(c[i]);
        }
        i += 1;
        assert(r@ =~= replaced(c@.take(i as int), from, to));
    }
    assert(c@.take(n as int) =~= c@);
    r
}

// ---------------------------------------------------------------------------------------------
// Numbers
// ---------------------------------------------------------------------------------------------

/// The digit of value `d`, below sixteen, in lower case.
pub open spec fn digit(d: nat) -> char {
    if d < 10 {
        (48 + d) as char
    } else {
        (87 + d) as char
    }
}

/// `n` in decimal.
pub open spec fn decimal(n: nat) -> Seq<char>
    decreases n,
{
    if n < 10 {
        seq![digit(n)]
    } else {
        decimal(n / 10).push(digit(n % 10))
    }
}

/// `n` in hexadecimal, in lower case and without leading zeros.
pub open spec fn hexadecimal(n: nat) -> Seq<char>
    decreases n,
{
    if n < 16 {
        seq![digit(n)]
    } else {
        hexadecimal(n / 16).push(digit(n % 16))
    }
}

fn digit_char(d: u8) -> (r: char)
    requires
        d < 16,
    ensures
        r == digit(d as nat),
{
    if d < 10 {
        (48 + d) as char
    } else {
        (87 + d) as char
    }
}

/// Appends `n` in decimal.
pub fn push_decimal(s: &mut String, n: u64)
    ensures
        final(s)@ == old(s)@ + decimal(n as nat),
    decreases n,
{
    if n >= 10 {
        push_decimal(s, n / 10);
    }
    s.push(digit_char((n % 10) as u8));
    proof {
        if n < 10 {
            assert(old(s)@.push(digit(n as nat)) =~= old(s)@ + decimal(n as nat));
        } else {
            assert((old(s)@ + decimal(n as nat / 10)).push(digit(n as nat % 10)) =~= old(s)@
                + decimal(n as nat));
        }
    }
}

/// Appends `n` in hexadecimal.
pub fn push_hexadecimal(s: &mut String, n: u16)
    ensures
        final(s)@ == old(s)@ + hexadecimal(n as nat),
    decreases n,
{
    if n >= 16 {
        push_hexadecimal(s, n / 16);
    }
    s.push(digit_char((n % 16) as u8));
    proof {
        if n < 16 {
            assert(old(s)@.push(digit(n as nat)) =~= old(s)@ + hexadecimal(n as nat));
        } else {
            assert((old(s)@ + hexadecimal(n as nat / 16)).push(digit(n as nat % 16)) =~= old(s)@
                + hexadecimal(n as nat));
        }
    }
}

// ---------------------------------------------------------------------------------------------
// Order
// ---------------------------------------------------------------------------------------------

/// `a` comes before `b`, or is `b`, in the order of their characters' code points.
pub open spec fn text_le(a: Seq<char>, b: Seq<char>) -> bool
    decreases a.len(),
{
    if a.len() == 0 {
        true
    } else if b.len() == 0 {
        false
    } else if a[0] == b[0] {
        text_le(a.drop_first(), b.drop_first())
    } else {
        a[0] < b[0]
    }
}

/// The order of texts is total.
pub proof fn text_le_total(a: Seq<char>, b: Seq<char>)
    ensures
        text_le(a, b) || text_le(b, a),
    decreases a.len(),
{
    if a.len() > 0 && b.len() > 0 && a[0] == b[0] {
        text_le_total(a.drop_first(), b.drop_first());
    }
}

/// The order of texts is transitive.
pub proof fn text_le_transitive(a: Seq<char>, b: Seq<char>, c: Seq<char>)
    requires
        text_le(a, b),
        text_le(b, c),
    ensures
        text_le(a, c),
    decreases a.len(),
{
    if a.len() > 0 && b.len() > 0 && c.len() > 0 && a[0] == b[0] && b[0] == c[0] {
        text_le_transitive(a.drop_first(), b.drop_first(), c.drop_first());
    }
}

/// Two texts that each come before the other are the same.
pub proof fn text_le_antisymmetric(a: Seq<char>, b: Seq<char>)
    requires
        text_le(a, b),
        text_le(b, a),
    ensures
        a == b,
    decreases a.len(),
{
    if a.len() > 0 && b.len() > 0 {
        text_le_antisymmetric(a.drop_first(), b.drop_first());
        assert(a =~= seq![a[0]] + a.drop_first());
        assert(b =~= seq![b[0]] + b.drop_first());
    } else {
        assert(a =~= b);
    }
}

/// Whether `a` comes before `b`, or is `b`, in the order of their characters' code points.
pub fn text_in_order(a: &str, b: &str) -> (r: bool)
    ensures
        r == text_le(a@, b@),
{
    let x = chars_of(a);
    let y = chars_of(b);
    let mut i: usize = 0;
    assert(x@.skip(0) =~= x@);
    assert(y@.skip(0) =~= y@);
    loop
        invariant
            x@ == a@,
            y@ == b@,
            i <= x@.len(),
            i <= y@.len(),
            text_le(x@, y@) == text_le(x@.skip(i as int), y@.skip(i as int)),
        decreases x@.len() - i,
    {
        if i == x.len() {
            return true;
        }
        if i == y.len() {
            return false;
        }
        if x[i] != y[i] {
            return x[i] < y[i];
        }
        assert(x@.skip(i as int).drop_first() =~= x@.skip(i + 1));
        assert(y@.skip(i as int).drop_first() =~= y@.skip(i + 1));
        i += 1;
    }
}

// ---------------------------------------------------------------------------------------------
// Laws
// ---------------------------------------------------------------------------------------------

/// The value of a digit in lower case.
pub open spec fn digit_value(c: char) -> int {
    if '0' <= c <= '9' {
        c as int - '0' as int
    } else {
        c as int - 'a' as int + 10
    }
}

/// The number that digits make to a base, the first the most significant.
pub open spec fn digits_value(s: Seq<char>, base: int) -> int
    decreases s.len(),
{
    if s.len() == 0 {
        0
    } else {
        digits_value(s.drop_last(), base) * base + digit_value(s.last())
    }
}

/// The text is a number in decimal: digits without a leading zero that make the number.
pub open spec fn is_decimal(s: Seq<char>, n: int) -> bool {
    &&& s.len() > 0
    &&& forall|i: int| 0 <= i < s.len() ==> '0' <= #[trigger] s[i] <= '9'
    &&& s.len() > 1 ==> s[0] != '0'
    &&& digits_value(s, 10) == n
}

/// The text is a number in hexadecimal: digits in lower case without a leading zero that make the
/// number.
pub open spec fn is_hexadecimal(s: Seq<char>, n: int) -> bool {
    &&& s.len() > 0
    &&& forall|i: int|
        0 <= i < s.len() ==> ('0' <= #[trigger] s[i] <= '9' || 'a' <= s[i] <= 'f')
    &&& s.len() > 1 ==> s[0] != '0'
    &&& digits_value(s, 16) == n
}

/// The decimal text of a number reads back as that number.
pub proof fn decimal_reads_back(n: nat)
    ensures
        is_decimal(decimal(n), n as int),
        n > 0 ==> decimal(n)[0] != '0',
    decreases n,
{
    let s = decimal(n);
    if n >= 10 {
        decimal_reads_back(n / 10);
        assert(s.drop_last() =~= decimal(n / 10));
        assert(s[0] == decimal(n / 10)[0]);
    } else {
        assert(s.drop_last() =~= Seq::<char>::empty());
        assert(digits_value(s.drop_last(), 10) == 0);
    }
}

/// The hexadecimal text of a number reads back as that number.
pub proof fn hexadecimal_reads_back(n: nat)
    ensures
        is_hexadecimal(hexadecimal(n), n as int),
        n > 0 ==> hexadecimal(n)[0] != '0',
    decreases n,
{
    let s = hexadecimal(n);
    if n >= 16 {
        hexadecimal_reads_back(n / 16);
        assert(s.drop_last() =~= hexadecimal(n / 16));
        assert(s[0] == hexadecimal(n / 16)[0]);
    } else {
        assert(s.drop_last() =~= Seq::<char>::empty());
        assert(digits_value(s.drop_last(), 16) == 0);
    }
}

/// Different numbers have different decimal texts.
pub proof fn decimal_is_injective(a: nat, b: nat)
    requires
        decimal(a) == decimal(b),
    ensures
        a == b,
{
    decimal_reads_back(a);
    decimal_reads_back(b);
}

/// A text holds another exactly where it is that other one with something before and behind it.
pub proof fn contained_text_has_a_place(hay: Seq<char>, needle: Seq<char>)
    ensures
        text_contains(hay, needle) <==> exists|before: Seq<char>, behind: Seq<char>|
            hay == #[trigger] (before + needle + behind),
{
    if text_contains(hay, needle) {
        let i = choose|i: int| #[trigger] occurs_at(hay, needle, i);
        let before = hay.take(i);
        let behind = hay.skip(i + needle.len());
        assert(hay =~= before + needle + behind);
    }
    if exists|before: Seq<char>, behind: Seq<char>| hay == #[trigger] (before + needle + behind) {
        let (before, behind) = choose|before: Seq<char>, behind: Seq<char>|
            hay == #[trigger] (before + needle + behind);
        assert(hay.subrange(before.len() as int, (before.len() + needle.len()) as int) =~= needle);
        assert(occurs_at(hay, needle, before.len() as int));
    }
}

/// Every text holds itself and the empty text, and stays held where something is added.
pub proof fn containment_grows(hay: Seq<char>, needle: Seq<char>, more: Seq<char>)
    ensures
        text_contains(needle, needle),
        text_contains(hay, Seq::empty()),
        text_contains(hay, needle) ==> text_contains(hay + more, needle) && text_contains(
            more + hay,
            needle,
        ),
        text_contains(hay, needle) ==> needle.len() <= hay.len(),
{
    assert(needle.subrange(0, needle.len() as int) =~= needle);
    assert(occurs_at(needle, needle, 0));
    assert(hay.subrange(0, 0) =~= Seq::<char>::empty());
    assert(occurs_at(hay, Seq::empty(), 0));
    if text_contains(hay, needle) {
        let i = choose|i: int| #[trigger] occurs_at(hay, needle, i);
        assert((hay + more).subrange(i, i + needle.len()) =~= needle);
        assert(occurs_at(hay + more, needle, i));
        assert((more + hay).subrange(more.len() + i, more.len() + i + needle.len()) =~= needle);
        assert(occurs_at(more + hay, needle, more.len() + i));
    }
}

/// Trimming at the front takes away white space alone, and all of it.
proof fn front_is_trimmed(s: Seq<char>)
    ensures
        trim_front(s).len() <= s.len(),
        trim_front(s) == s.skip(s.len() - trim_front(s).len()),
        forall|i: int|
            0 <= i < s.len() - trim_front(s).len() ==> white_space(#[trigger] s[i]),
        trim_front(s).len() > 0 ==> !white_space(trim_front(s)[0]),
    decreases s.len(),
{
    if s.len() > 0 && white_space(s[0]) {
        let rest = s.drop_first();
        front_is_trimmed(rest);
        assert forall|i: int| 0 <= i < s.len() - trim_front(s).len() implies white_space(
            #[trigger] s[i],
        ) by {
            if i > 0 {
                assert(rest[i - 1] == s[i]);
            }
        }
        assert(s.skip(s.len() - trim_front(s).len()) =~= rest.skip(
            rest.len() - trim_front(s).len(),
        ));
    } else {
        assert(s.skip(0) =~= s);
    }
}

/// Trimming at the back takes away white space alone, and all of it.
proof fn back_is_trimmed(s: Seq<char>)
    ensures
        trim_back(s).len() <= s.len(),
        trim_back(s) == s.take(trim_back(s).len() as int),
        forall|i: int| trim_back(s).len() <= i < s.len() ==> white_space(#[trigger] s[i]),
        trim_back(s).len() > 0 ==> !white_space(trim_back(s).last()),
    decreases s.len(),
{
    if s.len() > 0 && white_space(s.last()) {
        let rest = s.drop_last();
        back_is_trimmed(rest);
        assert forall|i: int| trim_back(s).len() <= i < s.len() implies white_space(
            #[trigger] s[i],
        ) by {
            if i < rest.len() {
                assert(rest[i] == s[i]);
            }
        }
        assert(s.take(trim_back(s).len() as int) =~= rest.take(trim_back(s).len() as int));
    } else {
        assert(s.take(s.len() as int) =~= s);
    }
}

/// A trimmed text is what is left of the text when white space, and nothing else, was taken away
/// before and behind it; it neither begins nor ends with white space.
pub proof fn trimming_takes_white_space_alone(s: Seq<char>)
    ensures
        ({
            let t = trimmed(s);
            &&& exists|from: int|
                0 <= from && from + t.len() <= s.len() && t == #[trigger] s.subrange(
                    from,
                    from + t.len(),
                ) && (forall|i: int| 0 <= i < from ==> white_space(#[trigger] s[i])) && (forall|
                    i: int,
                |
                    from + t.len() <= i < s.len() ==> white_space(#[trigger] s[i]))
            &&& t.len() > 0 ==> !white_space(t[0]) && !white_space(t.last())
        }),
{
    let f = trim_front(s);
    let t = trimmed(s);
    front_is_trimmed(s);
    back_is_trimmed(f);
    let from = s.len() - f.len();
    assert(t =~= s.subrange(from, from + t.len()));
    assert forall|i: int| from + t.len() <= i < s.len() implies white_space(#[trigger] s[i]) by {
        assert(f[i - from] == s[i]);
    }
}

/// Trimming a text twice is trimming it once, and a text without white space at its ends stays.
pub proof fn trimming_is_idempotent(s: Seq<char>)
    ensures
        trimmed(trimmed(s)) == trimmed(s),
        s.len() > 0 && !white_space(s[0]) && !white_space(s.last()) ==> trimmed(s) == s,
{
    trimming_takes_white_space_alone(s);
}

/// What stands behind the last separator has none, and what stands before it is nothing, or ends
/// in the separator.
pub proof fn last_part_is_behind_the_separator(s: Seq<char>, sep: char)
    ensures
        ({
            let t = after_last(s, sep);
            &&& t.len() <= s.len()
            &&& t == s.skip(s.len() - t.len())
            &&& !t.contains(sep)
            &&& t.len() < s.len() ==> s[s.len() - t.len() - 1] == sep
        }),
    decreases s.len(),
{
    if s.len() > 0 && s.last() != sep {
        let rest = s.drop_last();
        last_part_is_behind_the_separator(rest, sep);
        let r = after_last(rest, sep);
        let t = after_last(s, sep);
        assert(t =~= s.skip(s.len() - t.len()));
        assert forall|i: int| 0 <= i < t.len() implies t[i] != sep by {
            if i < r.len() {
                assert(r[i] == t[i]);
                assert(r.contains(r[i]));
            }
        }
    } else if s.len() > 0 {
        assert(s.skip(s.len() as int) =~= Seq::<char>::empty());
    } else {
        assert(s.skip(0) =~= s);
    }
}

/// The part behind the last separator of a text that ends in a separator and a part without one
/// is that part.
pub proof fn last_part_of_joined(before: Seq<char>, sep: char, part: Seq<char>)
    requires
        !part.contains(sep),
    ensures
        after_last(before.push(sep) + part, sep) == part,
        after_last(part, sep) == part,
{
    let s = before.push(sep) + part;
    last_part_is_behind_the_separator(s, sep);
    last_part_is_behind_the_separator(part, sep);
    let t = after_last(s, sep);
    if t.len() > part.len() {
        assert(t[t.len() - part.len() - 1] == s[before.len() as int]);
        assert(t.contains(sep));
    }
    if t.len() < part.len() {
        assert(s[s.len() - t.len() - 1] == part[part.len() - t.len() - 1]);
        assert(part.contains(part[part.len() - t.len() - 1]));
    }
    assert(t =~= part);
    let u = after_last(part, sep);
    if u.len() < part.len() {
        assert(part.contains(part[part.len() - u.len() - 1]));
    }
    assert(u =~= part);
}

/// Replacing a character keeps the length and every other character, and puts the new one where
/// the old one stood, so that none of the old ones is left.
pub proof fn replacing_keeps_the_rest(s: Seq<char>, from: char, to: char)
    ensures
        replaced(s, from, to).len() == s.len(),
        forall|i: int|
            0 <= i < s.len() ==> (s[i] != from ==> #[trigger] replaced(s, from, to)[i] == s[i])
                && (s[i] == from ==> replaced(s, from, to)[i] == to),
        from != to ==> !replaced(s, from, to).contains(from),
{
}

/// A text comes before another exactly where it is a beginning of it, or has the lesser character
/// at the first place at which they differ.
pub proof fn order_goes_by_first_difference(a: Seq<char>, b: Seq<char>)
    ensures
        text_le(a, b) <==> a.is_prefix_of(b) || exists|k: int|
            0 <= k < a.len() && k < b.len() && #[trigger] a[k] < b[k] && forall|j: int|
                0 <= j < k ==> #[trigger] a[j] == b[j],
    decreases a.len(),
{
    if a.len() == 0 {
        assert(b.subrange(0, 0) =~= a);
    } else if b.len() == 0 {
        assert(!a.is_prefix_of(b));
    } else if a[0] == b[0] {
        let x = a.drop_first();
        let y = b.drop_first();
        order_goes_by_first_difference(x, y);
        if x.is_prefix_of(y) {
            assert(a =~= b.subrange(0, a.len() as int)) by {
                assert forall|i: int| 0 <= i < a.len() implies a[i] == b[i] by {
                    if i > 0 {
                        assert(x[i - 1] == y.subrange(0, x.len() as int)[i - 1]);
                    }
                }
            }
        }
        if a.is_prefix_of(b) {
            assert(x =~= y.subrange(0, x.len() as int)) by {
                assert forall|i: int| 0 <= i < x.len() implies x[i] == y[i] by {
                    assert(a[i + 1] == b.subrange(0, a.len() as int)[i + 1]);
                }
            }
        }
        if exists|k: int|
            0 <= k < x.len() && k < y.len() && #[trigger] x[k] < y[k] && forall|j: int|
                0 <= j < k ==> #[trigger] x[j] == y[j] {
            let k = choose|k: int|
                0 <= k < x.len() && k < y.len() && #[trigger] x[k] < y[k] && forall|j: int|
                    0 <= j < k ==> #[trigger] x[j] == y[j];
            assert(a[k + 1] < b[k + 1]);
            assert forall|j: int| 0 <= j < k + 1 implies #[trigger] a[j] == b[j] by {
                if j > 0 {
                    assert(x[j - 1] == y[j - 1]);
                }
            }
        }
        if exists|k: int|
            0 <= k < a.len() && k < b.len() && #[trigger] a[k] < b[k] && forall|j: int|
                0 <= j < k ==> #[trigger] a[j] == b[j] {
            let k = choose|k: int|
                0 <= k < a.len() && k < b.len() && #[trigger] a[k] < b[k] && forall|j: int|
                    0 <= j < k ==> #[trigger] a[j] == b[j];
            assert(x[k - 1] < y[k - 1]);
            assert forall|j: int| 0 <= j < k - 1 implies #[trigger] x[j] == y[j] by {
                assert(a[j + 1] == b[j + 1]);
            }
        }
    } else {
        if a.is_prefix_of(b) {
            assert(a[0] == b.subrange(0, a.len() as int)[0]);
        }
        if a[0] < b[0] {
            assert(a[0] < b[0]);
        }
    }
}

/// The parts of a text between separators.
pub open spec fn fields(s: Seq<char>, sep: char) -> Seq<Seq<char>>
    decreases s.len(),
{
    if s.len() == 0 {
        seq![Seq::empty()]
    } else if s.last() == sep {
        fields(s.drop_last(), sep).push(Seq::empty())
    } else {
        let rest = fields(s.drop_last(), sep);
        rest.drop_last().push(rest.last().push(s.last()))
    }
}

/// A text has at least one part.
pub proof fn fields_are_some(s: Seq<char>, sep: char)
    ensures
        fields(s, sep).len() > 0,
    decreases s.len(),
{
    if s.len() > 0 {
        fields_are_some(s.drop_last(), sep);
    }
}

/// A text without a separator is one part.
pub proof fn one_field(s: Seq<char>, sep: char)
    requires
        !s.contains(sep),
    ensures
        fields(s, sep) == seq![s],
    decreases s.len(),
{
    if s.len() > 0 {
        let rest = s.drop_last();
        assert(s.contains(s.last()));
        assert forall|i: int| 0 <= i < rest.len() implies rest[i] != sep by {
            assert(s.contains(s[i]));
        }
        one_field(rest, sep);
        assert(rest.push(s.last()) =~= s);
        assert(fields(s, sep) =~= seq![s]);
    } else {
        assert(s =~= Seq::<char>::empty());
        assert(fields(s, sep) =~= seq![s]);
    }
}

/// A part more behind a separator.
pub proof fn fields_of_joined(a: Seq<char>, sep: char, part: Seq<char>)
    requires
        !part.contains(sep),
    ensures
        fields(a.push(sep) + part, sep) == fields(a, sep).push(part),
    decreases part.len(),
{
    let s = a.push(sep) + part;
    if part.len() == 0 {
        assert(s =~= a.push(sep));
        assert(s.drop_last() =~= a);
        assert(part =~= Seq::<char>::empty());
    } else {
        let rest = part.drop_last();
        assert(part.contains(part.last()));
        assert forall|i: int| 0 <= i < rest.len() implies rest[i] != sep by {
            assert(part.contains(part[i]));
        }
        fields_of_joined(a, sep, rest);
        assert(s.drop_last() =~= a.push(sep) + rest);
        assert(fields(a, sep).push(rest).drop_last() =~= fields(a, sep));
        assert(rest.push(part.last()) =~= part);
    }
}

}
