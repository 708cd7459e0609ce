//! Text as a sequence of characters, with the byte offsets that UTF-8 gives them.

use vstd::prelude::*;
use vstd::utf8::*;

verus! {

/// The number of bytes that UTF-8 takes for `c`.
pub open spec fn char_width(c: char) -> nat {
    if (c as u32) < 0x80 {
        1
    } else if (c as u32) < 0x800 {
        2
    } else if (c as u32) < 0x10000 {
        3
    } else {
        4
    }
}

/// The number of bytes of `s` in UTF-8.
pub open spec fn byte_len(s: Seq<char>) -> nat {
    encode_utf8(s).len()
}

/// `offset` is where the first `k` characters of `s` end.
pub open spec fn ends_at(s: Seq<char>, k: int, offset: int) -> bool {
    0 <= k <= s.len() && byte_len(s.take(k)) == offset
}

/// `offset` is a byte offset between two characters of `s`, or one of its ends.
pub open spec fn is_boundary(s: Seq<char>, offset: int) -> bool {
    exists|k: int| ends_at(s, k, offset)
}

/// How many characters of `s` stand before the byte offset `offset`.
pub open spec fn chars_before(s: Seq<char>, offset: int) -> int {
    choose|k: int| ends_at(s, k, offset)
}

/// The text between two byte offsets of `s`.
pub open spec fn byte_slice(s: Seq<char>, start: int, end: int) -> Seq<char> {
    s.subrange(chars_before(s, start), chars_before(s, end))
}

pub proof fn lemma_encode_one(c: char)
    ensures
        encode_scalar(c as u32).len() == char_width(c),
{
    char_is_scalar(c);
}

/// Encoding a text encodes its parts one after the other.
pub proof fn lemma_encode_concat(a: Seq<char>, b: Seq<char>)
    ensures
        encode_utf8(a + b) == encode_utf8(a) + encode_utf8(b),
    decreases a.len(),
{
    if a.len() == 0 {
        assert(a + b =~= b);
        assert(encode_utf8(a) =~= Seq::<u8>::empty());
        assert(encode_utf8(a) + encode_utf8(b) =~= encode_utf8(b));
    } else {
        lemma_encode_concat(a.drop_first(), b);
        assert((a + b).drop_first() =~= a.drop_first() + b);
        assert(encode_utf8(a + b) =~= encode_scalar(a[0] as u32) + (encode_utf8(a.drop_first())
            + encode_utf8(b)));
        assert(encode_utf8(a + b) =~= encode_utf8(a) + encode_utf8(b));
    }
}

pub proof fn lemma_byte_len_concat(a: Seq<char>, b: Seq<char>)
    ensures
        byte_len(a + b) == byte_len(a) + byte_len(b),
{
    lemma_encode_concat(a, b);
}

pub proof fn lemma_byte_len_push(s: Seq<char>, c: char)
    ensures
        byte_len(s.push(c)) == byte_len(s) + char_width(c),
{
    let one = seq![c];
    assert(s.push(c) =~= s + one);
    lemma_byte_len_concat(s, one);
    lemma_encode_one(c);
    assert(one.drop_first() =~= Seq::<char>::empty());
    assert(encode_utf8(one.drop_first()).len() == 0);
    assert(encode_utf8(one) =~= encode_scalar(c as u32) + encode_utf8(one.drop_first()));
}

pub proof fn lemma_byte_len_empty()
    ensures
        byte_len(Seq::<char>::empty()) == 0,
{
}

/// The next character moves the byte offset by its width.
pub proof fn lemma_take_step(s: Seq<char>, k: int)
    requires
        0 <= k < s.len(),
    ensures
        byte_len(s.take(k + 1)) == byte_len(s.take(k)) + char_width(s[k]),
{
    assert(s.take(k + 1) =~= s.take(k).push(s[k]));
    lemma_byte_len_push(s.take(k), s[k]);
}

/// Later characters end at later offsets, each at least one byte further.
pub proof fn lemma_take_monotone(s: Seq<char>, i: int, j: int)
    requires
        0 <= i <= j <= s.len(),
    ensures
        byte_len(s.take(i)) + (j - i) <= byte_len(s.take(j)),
    decreases j - i,
{
    if i < j {
        lemma_take_monotone(s, i, j - 1);
        lemma_take_step(s, j - 1);
    }
}

/// A text has at least as many bytes as characters.
pub proof fn lemma_byte_len_at_least(s: Seq<char>)
    ensures
        s.len() <= byte_len(s),
{
    lemma_take_monotone(s, 0, s.len() as int);
    assert(s.take(s.len() as int) =~= s);
}

/// An offset belongs to one character count only.
pub proof fn lemma_ends_at_unique(s: Seq<char>, k: int, offset: int)
    requires
        ends_at(s, k, offset),
    ensures
        is_boundary(s, offset),
        chars_before(s, offset) == k,
        0 <= offset <= byte_len(s),
{
    let other = chars_before(s, offset);
    assert(ends_at(s, other, offset));
    if other < k {
        lemma_take_monotone(s, other, k);
    } else if k < other {
        lemma_take_monotone(s, k, other);
    }
    lemma_take_monotone(s, k, s.len() as int);
    assert(s.take(s.len() as int) =~= s);
}

/// A boundary is where `chars_before` characters end, inside the text.
pub proof fn lemma_boundary(s: Seq<char>, offset: int)
    requires
        is_boundary(s, offset),
    ensures
        ends_at(s, chars_before(s, offset), offset),
        0 <= offset <= byte_len(s),
{
    let k = choose|k: int| ends_at(s, k, offset);
    lemma_ends_at_unique(s, k, offset);
}

/// Both ends of a text are boundaries.
pub proof fn lemma_ends_are_boundaries(s: Seq<char>)
    ensures
        is_boundary(s, 0),
        chars_before(s, 0) == 0,
        is_boundary(s, byte_len(s) as int),
        chars_before(s, byte_len(s) as int) == s.len(),
{
    assert(s.take(0) =~= Seq::<char>::empty());
    assert(s.take(s.len() as int) =~= s);
    lemma_ends_at_unique(s, 0, 0);
    lemma_ends_at_unique(s, s.len() as int, byte_len(s) as int);
}

/// Boundaries keep the order of the characters before them.
pub proof fn lemma_boundary_order(s: Seq<char>, a: int, b: int)
    requires
        is_boundary(s, a),
        is_boundary(s, b),
    ensures
        a <= b <==> chars_before(s, a) <= chars_before(s, b),
        a == b <==> chars_before(s, a) == chars_before(s, b),
{
    lemma_boundary(s, a);
    lemma_boundary(s, b);
    let i = chars_before(s, a);
    let j = chars_before(s, b);
    if i <= j {
        lemma_take_monotone(s, i, j);
    } else {
        lemma_take_monotone(s, j, i);
    }
}

/// Two texts with the same encoding are the same text.
pub proof fn lemma_encode_injective(a: Seq<char>, b: Seq<char>)
    requires
        encode_utf8(a) == encode_utf8(b),
    ensures
        a == b,
{
    encode_utf8_decode_utf8(a);
    encode_utf8_decode_utf8(b);
}

proof fn lemma_byte_boundary(a: Seq<char>, b: Seq<char>)
    ensures
        is_char_boundary(encode_utf8(a + b), encode_utf8(a).len() as int),
    decreases a.len(),
{
    let bytes = encode_utf8(a + b);
    encode_utf8_valid_utf8(a + b);
    if a.len() > 0 {
        encode_utf8_first_scalar(a + b);
        assert((a + b).drop_first() =~= a.drop_first() + b);
        assert(pop_first_scalar(bytes) =~= encode_utf8(a.drop_first() + b));
        lemma_byte_boundary(a.drop_first(), b);
        lemma_encode_concat(a, b);
    }
}

/// The number of bytes of `s`.
pub fn byte_length(s: &str) -> (n: usize)
    ensures
        n == byte_len(s@),
{
    s.as_bytes().len()
}

/// The text before and the text after a byte offset.
pub fn split_text(s: &str, mid: usize) -> (r: (&str, &str))
    requires
        is_boundary(s@, mid as int),
    ensures
        r.0@ == s@.take(chars_before(s@, mid as int)),
        r.1@ == s@.skip(chars_before(s@, mid as int)),
{
    let ghost k = chars_before(s@, mid as int);
    proof {
        lemma_boundary(s@, mid as int);
        assert(s@.take(k) + s@.skip(k) =~= s@);
        lemma_byte_boundary(s@.take(k), s@.skip(k));
        lemma_encode_concat(s@.take(k), s@.skip(k));
    }
    let r = s.split_at(mid);
    proof {
        let bytes = encode_utf8(s@);
        assert(bytes.subrange(0, mid as int) =~= encode_utf8(s@.take(k)));
        assert(bytes.subrange(mid as int, bytes.len() as int) =~= encode_utf8(s@.skip(k)));
        lemma_encode_injective(r.0@, s@.take(k));
        lemma_encode_injective(r.1@, s@.skip(k));
    }
    r
}

/// `String::push` appends one character.
pub assume_specification[ String::push ](s: &mut String, ch: char)
    ensures
        final(s)@ == old(s)@.push(ch),
;

/// The result that `String::from_utf8_lossy` gives for some bytes.
pub uninterp spec fn utf8_lossy(bytes: Seq<u8>) -> Seq<char>;

/// Calls `String::from_utf8_lossy`. Its result is named; bytes that are valid UTF-8 come back
/// as the text they encode.
#[verifier::external_body]
pub(crate) fn from_utf8_lossy(bytes: &[u8]) -> (s: String)
    ensures
        s@ == utf8_lossy(bytes@),
        valid_utf8(bytes@) ==> s@ == decode_utf8(bytes@),
{
    String::from_utf8_lossy(bytes).into_owned()
}

/// The result that `str::to_lowercase` gives for a text.
pub uninterp spec fn lowercase(s: Seq<char>) -> Seq<char>;

/// Calls `str::to_lowercase`. Its result is named; of a text of ASCII characters alone each
/// capital becomes its small letter and nothing else changes.
#[verifier::external_body]
pub(crate) fn to_lowercase(s: &str) -> (r: String)
    ensures
        r@ == lowercase(s@),
        is_ascii_chars(s@) ==> r@ == s@.map_values(|c: char| ascii_lower(c)),
{
    s.to_lowercase()
}

/// The views of a list of strings.
pub open spec fn views(v: Seq<String>) -> Seq<Seq<char>> {
    v.map_values(|s: String| s@)
}

/// `part` occurs in `s` at character `i`.
pub open spec fn occurs_at(s: Seq<char>, part: Seq<char>, i: int) -> bool {
    0 <= i && i + part.len() <= s.len() && s.subrange(i, i + part.len()) == part
}

/// `part` occurs somewhere in `s`.
pub open spec fn contains_text(s: Seq<char>, part: Seq<char>) -> bool {
    exists|i: int| occurs_at(s, part, i)
}

/// Whether `s` starts with `prefix`.
pub open spec fn has_prefix(s: Seq<char>, prefix: Seq<char>) -> bool {
    prefix.len() <= s.len() && s.take(prefix.len() as int) == prefix
}

/// The characters that Unicode calls white space.
pub open spec fn is_space(c: char) -> bool {
    let n = c as u32;
    ||| 0x09 <= n <= 0x0d
    ||| n == 0x20
    ||| n == 0x85
    ||| n == 0xa0
    ||| n == 0x1680
    ||| 0x2000 <= n <= 0x200a
    ||| n == 0x2028
    ||| n == 0x2029
    ||| n == 0x202f
    ||| n == 0x205f
    ||| n == 0x3000
}

/// `s` without the white space at its start.
pub open spec fn trim_start(s: Seq<char>) -> Seq<char>
    decreases s.len(),
{
    if s.len() > 0 && is_space(s[0]) {
        trim_start(s.drop_first())
    } else {
        s
    }
}

/// `s` without the white space at its end.
pub open spec fn trim_end(s: Seq<char>) -> Seq<char>
    decreases s.len(),
{
    if s.len() > 0 && is_space(s.last()) {
        trim_end(s.drop_last())
    } else {
        s
    }
}

/// `s` without the white space around it.
pub open spec fn trimmed(s: Seq<char>) -> Seq<char> {
    trim_end(trim_start(s))
}

/// The longest runs of `s` without a separator, in order.
pub open spec fn fields(s: Seq<char>, is_separator: spec_fn(char) -> bool) -> Seq<Seq<char>>
    decreases s.len(),
{
    if s.len() == 0 {
        seq![]
    } else {
        let before = fields(s.drop_last(), is_separator);
        if is_separator(s.last()) {
            before
        } else if s.len() == 1 || is_separator(s[s.len() - 2]) {
            before.push(seq![s.last()])
        } else {
            before.drop_last().push(before.last().push(s.last()))
        }
    }
}

/// The pieces of `s` between separators, empty ones too.
pub open spec fn pieces(s: Seq<char>, separator: char) -> Seq<Seq<char>>
    decreases s.len(),
{
    if s.len() == 0 {
        seq![seq![]]
    } else {
        let before = pieces(s.drop_last(), separator);
        if s.last() == separator {
            before.push(seq![])
        } else {
            before.drop_last().push(before.last().push(s.last()))
        }
    }
}

/// The items with `separator` between each two of them.
pub open spec fn joined(items: Seq<Seq<char>>, separator: Seq<char>) -> Seq<char>
    decreases items.len(),
{
    if items.len() == 0 {
        seq![]
    } else if items.len() == 1 {
        items[0]
    } else {
        joined(items.drop_last(), separator) + separator + items.last()
    }
}

/// The decimal digit for `d`.
pub open spec fn digit(d: int) -> char {
    (48 + d) as char
}

/// `n` in decimal.
pub open spec fn decimal(n: nat) -> Seq<char>
    decreases n,
{
    if n < 10 {
        seq![digit(n as int)]
    } else {
        decimal(n / 10).push(digit((n % 10) as int))
    }
}

/// `n` in decimal, with a minus sign before it where it is negative.
pub open spec fn signed_decimal(n: int) -> Seq<char> {
    if n < 0 {
        seq!['-'] + decimal((-n) as nat)
    } else {
        decimal(n as nat)
    }
}

/// An ASCII capital as its small letter, any other character as it is.
pub open spec fn ascii_lower(c: char) -> char {
    if 65 <= c as u32 <= 90 {
        (c as u32 + 32) as char
    } else {
        c
    }
}

/// The characters of `s`.
pub fn to_chars(s: &str) -> (v: Vec<char>)
    ensures
        v@ == s@,
{
    let mut v: Vec<char> = Vec::new();
    for c in it: s.chars()
        invariant
            v@ == it.seq().take(it.index() as int),
    {
        v.push(c);
    }
    v
}

/// The string of `chars[from..to]`.
pub fn from_chars(chars: &Vec<char>, from: usize, to: usize) -> (s: String)
    requires
        from <= to <= chars@.len(),
    ensures
        s@ == chars@.subrange(from as int, to as int),
{
    let mut s = String::new();
    let mut i: usize = from;
    while i < to
        invariant
            from <= i <= to <= chars@.len(),
            s@ == chars@.subrange(from as int, i as int),
        decreases to - i,
    {
        s.push(chars[i]);
        i += 1;
        assert(chars@.subrange(from as int, i as int).drop_last() =~= chars@.subrange(
            from as int,
            i - 1,
        ));
    }
    s
}

/// Whether two texts are the same.
pub fn same_text(a: &str, b: &str) -> (same: bool)
    ensures
        same == (a@ == b@),
{
    let x = a.as_bytes();
    let y = b.as_bytes();
    if x.len() != y.len() {
        return false;
    }
    let mut i: usize = 0;
    while i < x.len()
        invariant
            i <= x@.len() == y@.len(),
            x@ == encode_utf8(a@),
            y@ == encode_utf8(b@),
            forall|j: int| 0 <= j < i ==> x@[j] == y@[j],
        decreases x@.len() - i,
    {
        if x[i] != y[i] {
            return false;
        }
        i += 1;
    }
    proof {
        assert(x@ =~= y@);
        lemma_encode_injective(a@, b@);
    }
    true
}

/// Whether `chars[at..]` starts with `part`.
fn matches_at(chars: &Vec<char>, part: &Vec<char>, at: usize) -> (r: bool)
    requires
        at <= chars@.len(),
    ensures
        r == occurs_at(chars@, part@, at as int),
{
    let size: usize = chars.len();
    if part.len() > size - at {
        return false;
    }
    let mut i: usize = 0;
    while i < part.len()
        invariant
            i <= part@.len(),
            at + part@.len() <= chars@.len() == size,
            forall|j: int| 0 <= j < i ==> chars@[at + j] == part@[j],
        decreases part@.len() - i,
    {
        if chars[at + i] != part[i] {
            assert(chars@.subrange(at as int, at + part@.len())[i as int] == chars@[at + i]);
            return false;
        }
        i += 1;
    }
    assert(chars@.subrange(at as int, at + part@.len()) =~= part@);
    true
}

/// Whether `part` occurs in `s`.
pub fn contains(s: &str, part: &str) -> (r: bool)
    ensures
        r == contains_text(s@, part@),
{
    let chars = to_chars(s);
    let wanted = to_chars(part);
    let mut i: usize = 0;
    while i < chars.len()
        invariant
            i <= chars@.len(),
            chars@ == s@,
            wanted@ == part@,
            forall|j: int| 0 <= j < i ==> !occurs_at(s@, part@, j),
        decreases chars@.len() - i,
    {
        if matches_at(&chars, &wanted, i) {
            return true;
        }
        i += 1;
    }
    matches_at(&chars, &wanted, i)
}

/// Whether `s` starts with `prefix`.
pub fn starts_with(s: &str, prefix: &str) -> (r: bool)
    ensures
        r == has_prefix(s@, prefix@),
{
    let chars = to_chars(s);
    let wanted = to_chars(prefix);
    proof {
        if prefix@.len() <= s@.len() {
            assert(s@.subrange(0, prefix@.len() as int) =~= s@.take(prefix@.len() as int));
        }
    }
    matches_at(&chars, &wanted, 0)
}

/// Whether `c` is white space.
pub fn space(c: char) -> (r: bool)
    ensures
        r == is_space(c),
{
    let n: u32 = c as u32;
    (0x09 <= n && n <= 0x0d) || n == 0x20 || n == 0x85 || n == 0xa0 || n == 0x1680 || (0x2000 <= n
        && n <= 0x200a) || n == 0x2028 || n == 0x2029 || n == 0x202f || n == 0x205f || n == 0x3000
}

/// `s` without the white space around it.
pub fn trim(s: &str) -> (r: String)
    ensures
        r@ == trimmed(s@),
{
    let chars = to_chars(s);
    let mut from: usize = 0;
    assert(s@.skip(0) =~= s@);
    while from < chars.len() && space(chars[from])
        invariant
            from <= chars@.len(),
            chars@ == s@,
            trim_start(s@) == trim_start(s@.skip(from as int)),
        decreases chars@.len() - from,
    {
        assert(s@.skip(from as int).drop_first() =~= s@.skip(from + 1));
        from += 1;
    }
    let ghost rest = s@.skip(from as int);
    assert(trim_start(s@) == rest);
    let mut to: usize = chars.len();
    assert(chars@.subrange(from as int, to as int) =~= rest);
    while from < to && space(chars[to - 1])
        invariant
            from <= to <= chars@.len(),
            chars@ == s@,
            trim_end(rest) == trim_end(chars@.subrange(from as int, to as int)),
        decreases to - from,
    {
        assert(chars@.subrange(from as int, to as int).drop_last() =~= chars@.subrange(
            from as int,
            to - 1,
        ));
        to -= 1;
    }
    from_chars(&chars, from, to)
}

/// The words of `s`, split at white space.
pub fn words(s: &str) -> (r: Vec<String>)
    ensures
        views(r@) == fields(s@, |c: char| is_space(c)),
{
    let r = split_fields(s, false);
    proof {
        assert((|c: char| separates(c, false)) =~= (|c: char| is_space(c)));
    }
    r
}

/// White space separates, and where commas count they do too.
pub open spec fn separates(c: char, commas: bool) -> bool {
    is_space(c) || (commas && c == ',')
}

/// The longest runs of `s` without white space and, where commas count, without a comma.
pub fn split_fields(s: &str, commas: bool) -> (r: Vec<String>)
    ensures
        views(r@) == fields(s@, |c: char| separates(c, commas)),
{
    let chars = to_chars(s);
    let ghost sep = |c: char| separates(c, commas);
    let mut r: Vec<String> = Vec::new();
    let mut i: usize = 0;
    let mut start: usize = 0;
    let mut open = false;
    assert(s@.take(0).len() == 0);
    while i < chars.len()
        invariant
            start <= i <= chars@.len(),
            chars@ == s@,
            sep == (|c: char| separates(c, commas)),
            open == (i > 0 && !separates(s@[i - 1], commas)),
            open ==> start < i,
            fields(s@.take(i as int), sep) == (if open {
                views(r@).push(s@.subrange(start as int, i as int))
            } else {
                views(r@)
            }),
        decreases chars@.len() - i,
    {
        let ghost before = s@.take(i as int);
        let ghost now = s@.take(i + 1);
        assert(now.drop_last() =~= before);
        assert(now.last() == s@[i as int]);
        if i > 0 {
            assert(now[now.len() - 2] == s@[i - 1]);
        }
        let ghost open_before = open;
        if space(chars[i]) || (commas && chars[i] == ',') {
            if open {
                let word = from_chars(&chars, start, i);
                let ghost done = views(r@);
                r.push(word);
                assert(views(r@) =~= done.push(s@.subrange(start as int, i as int)));
            }
            open = false;
        } else {
            if !open {
                start = i;
            }
            open = true;
            assert(s@.subrange(start as int, i + 1).drop_last() =~= s@.subrange(
                start as int,
                i as int,
            ));
            assert(s@.subrange(start as int, i + 1) =~= s@.subrange(start as int, i as int).push(
                s@[i as int],
            ));
            proof {
                if open_before {
                    assert(fields(before, sep).drop_last() =~= views(r@));
                } else {
                    assert(s@.subrange(start as int, i + 1) =~= seq![s@[i as int]]);
                }
            }
        }
        i += 1;
    }
    assert(s@.take(i as int) =~= s@);
    if open {
        let word = from_chars(&chars, start, i);
        let ghost done = views(r@);
        r.push(word);
        assert(views(r@) =~= done.push(s@.subrange(start as int, i as int)));
    }
    r
}

/// The pieces of `s` between occurrences of `separator`.
pub fn split(s: &str, separator: char) -> (r: Vec<String>)
    ensures
        views(r@) == pieces(s@, separator),
{
    let chars = to_chars(s);
    let mut r: Vec<String> = Vec::new();
    let mut i: usize = 0;
    let mut start: usize = 0;
    assert(s@.take(0).len() == 0);
    assert(s@.subrange(0, 0) =~= seq![]);
    assert(views(r@).push(s@.subrange(0, 0)) =~= seq![s@.subrange(0, 0)]);
    while i < chars.len()
        invariant
            start <= i <= chars@.len(),
            chars@ == s@,
            pieces(s@.take(i as int), separator) == views(r@).push(
                s@.subrange(start as int, i as int),
            ),
        decreases chars@.len() - i,
    {
        let ghost now = s@.take(i + 1);
        assert(now.drop_last() =~= s@.take(i as int));
        if chars[i] == separator {
            let piece = from_chars(&chars, start, i);
            let ghost done = views(r@);
            r.push(piece);
            assert(views(r@) =~= done.push(s@.subrange(start as int, i as int)));
            start = i + 1;
            assert(s@.subrange(start as int, i + 1) =~= seq![]);
        } else {
            assert(s@.subrange(start as int, i + 1) =~= s@.subrange(start as int, i as int).push(
                s@[i as int],
            ));
            assert(pieces(s@.take(i as int), separator).drop_last() =~= views(r@));
        }
        i += 1;
    }
    assert(s@.take(i as int) =~= s@);
    let piece = from_chars(&chars, start, i);
    let ghost done = views(r@);
    r.push(piece);
    assert(views(r@) =~= done.push(s@.subrange(start as int, i as int)));
    r
}

/// The items with `separator` between each two of them.
pub fn join(items: &Vec<String>, separator: &str) -> (r: String)
    ensures
        r@ == joined(views(items@), separator@),
{
    let mut r = String::new();
    let mut i: usize = 0;
    let ghost all = views(items@);
    while i < items.len()
        invariant
            i <= items@.len(),
            all == views(items@),
            r@ == joined(all.take(i as int), separator@),
        decreases items@.len() - i,
    {
        let ghost now = all.take(i + 1);
        assert(now.drop_last() =~= all.take(i as int));
        assert(now.last() == items@[i as int]@);
        if i > 0 {
            r.append(separator);
        }
        r.append(items[i].as_str());
        if i == 0 {
            assert(r@ =~= now[0]);
        }
        i += 1;
    }
    assert(all.take(i as int) =~= all);
    r
}

/// Appends `n` in decimal.
pub fn push_decimal(out: &mut String, n: u64)
    ensures
        final(out)@ == old(out)@ + decimal(n as nat),
    decreases n,
{
    if n >= 10 {
        push_decimal(out, n / 10);
    }
    let last: u32 = (n % 10) as u32;
    let c: char = digit_char(last);
    out.push(c);
    assert(out@ =~= old(out)@ + decimal(n as nat));
}

fn digit_char(d: u32) -> (c: char)
    requires
        d < 10,
    ensures
        c == digit(d as int),
{
    match d {
        0 => '0',
        1 => '1',
        2 => '2',
        3 => '3',
        4 => '4',
        5 => '5',
        6 => '6',
        7 => '7',
        8 => '8',
        _ => '9',
    }
}

/// `n` in decimal.
pub fn decimal_text(n: u64) -> (s: String)
    ensures
        s@ == decimal(n as nat),
{
    let mut s = String::new();
    push_decimal(&mut s, n);
    assert(s@ =~= decimal(n as nat));
    s
}

/// `n` in decimal, with its sign.
pub fn signed_decimal_text(n: i64) -> (s: String)
    ensures
        s@ == signed_decimal(n as int),
{
    let mut s = String::new();
    if n < 0 {
        s.push('-');
        let size: u64 = if n == i64::MIN {
            0x8000_0000_0000_0000
        } else {
            (-n) as u64
        };
        push_decimal(&mut s, size);
    } else {
        push_decimal(&mut s, n as u64);
    }
    assert(s@ =~= signed_decimal(n as int));
    s
}

/// `s` with its ASCII capitals as small letters.
pub fn lower_ascii(s: &str) -> (r: String)
    ensures
        r@ == s@.map_values(|c: char| ascii_lower(c)),
{
    let chars = to_chars(s);
    let mut r = String::new();
    let mut i: usize = 0;
    while i < chars.len()
        invariant
            i <= chars@.len(),
            chars@ == s@,
            r@ == s@.take(i as int).map_values(|c: char| ascii_lower(c)),
        decreases chars@.len() - i,
    {
        let c = chars[i];
        r.push(lower_char(c));
        i += 1;
        assert(s@.take(i as int).map_values(|c: char| ascii_lower(c)) =~= s@.take(i - 1).map_values(
            |c: char| ascii_lower(c),
        ).push(ascii_lower(c)));
    }
    assert(s@.take(i as int) =~= s@);
    r
}

fn lower_char(c: char) -> (r: char)
    ensures
        r == ascii_lower(c),
{
    let n: u32 = c as u32;
    if 65 <= n && n <= 90 {
        (n as u8 + 32) as char
    } else {
        c
    }
}

/// A text that may be missing, as characters.
pub open spec fn optional_text(s: Option<String>) -> Option<Seq<char>> {
    match s {
        Some(t) => Some(t@),
        None => None,
    }
}

/// A copy of a text that may be missing.
pub fn copy_optional(s: &Option<String>) -> (r: Option<String>)
    ensures
        r == *s,
{
    match s {
        Some(t) => Some(t.clone()),
        None => None,
    }
}

/// Three texts, one after the other.
pub fn concat3(a: &str, b: &str, c: &str) -> (r: String)
    ensures
        r@ == a@ + b@ + c@,
{
    let mut r = a.to_owned();
    r.append(b);
    r.append(c);
    r
}

/// A trimmed text is a stretch of the text with nothing but white space around it, and has none at
/// its ends.
pub proof fn law_trimmed(s: Seq<char>)
    ensures
        exists|a: int, b: int| #[trigger] is_trimmed_to(s, a, b) && trimmed(s) == s.subrange(a, b),
        trimmed(trimmed(s)) == trimmed(s),
{
    let t = trim_start(s);
    let r = trimmed(s);
    lemma_trim_start(s);
    lemma_trim_end(t);
    let a = s.len() - t.len();
    let b = a + r.len();
    assert(r =~= s.subrange(a, b));
    assert forall|i: int| 0 <= i < a || b <= i < s.len() implies is_space(#[trigger] s[i]) by {
        if i >= b {
            assert(s[i] == t[i - a]);
        }
    }
    if r.len() > 0 {
        assert(r[0] == t[0]);
        assert(r.last() == s[b - 1]);
        assert(r[0] == s[a]);
    }
    assert(is_trimmed_to(s, a, b));
    assert(trim_start(r) == r);
    assert(trim_end(r) == r);
}

/// Around `s[a..b]` is nothing but white space, and it neither begins nor ends with any.
pub open spec fn is_trimmed_to(s: Seq<char>, a: int, b: int) -> bool {
    &&& 0 <= a <= b <= s.len()
    &&& forall|i: int| 0 <= i < a || b <= i < s.len() ==> is_space(#[trigger] s[i])
    &&& a < b ==> !is_space(s[a]) && !is_space(s[b - 1])
}

proof fn lemma_trim_start(s: Seq<char>)
    ensures
        ({
            let t = trim_start(s);
            let a = s.len() - t.len();
            &&& 0 <= a
            &&& t == s.skip(a)
            &&& forall|i: int| 0 <= i < a ==> is_space(#[trigger] s[i])
            &&& t.len() > 0 ==> !is_space(t[0])
        }),
    decreases s.len(),
{
    if s.len() > 0 && is_space(s[0]) {
        let rest = s.drop_first();
        lemma_trim_start(rest);
        let t = trim_start(s);
        let a = s.len() - t.len();
        assert forall|i: int| 0 <= i < a implies is_space(#[trigger] s[i]) by {
            if i > 0 {
                assert(s[i] == rest[i - 1]);
            }
        }
        assert(t =~= s.skip(a));
    } else {
        assert(s.skip(0) =~= s);
    }
}

proof fn lemma_trim_end(s: Seq<char>)
    ensures
        ({
            let t = trim_end(s);
            &&& t.len() <= s.len()
            &&& t == s.take(t.len() as int)
            &&& forall|i: int| t.len() <= i < s.len() ==> is_space(#[trigger] s[i])
            &&& t.len() > 0 ==> !is_space(t.last())
        }),
    decreases s.len(),
{
    if s.len() > 0 && is_space(s.last()) {
        let rest = s.drop_last();
        lemma_trim_end(rest);
        let t = trim_end(s);
        assert forall|i: int| t.len() <= i < s.len() implies is_space(#[trigger] s[i]) by {
            if i < rest.len() {
                assert(s[i] == rest[i]);
            }
        }
        assert(t =~= s.take(t.len() as int));
    } else {
        assert(s.take(s.len() as int) =~= s);
    }
}

/// A separator parts a text: its fields are those before it and then those after it.
pub proof fn law_fields_part_at_separators(
    a: Seq<char>,
    c: char,
    b: Seq<char>,
    is_separator: spec_fn(char) -> bool,
)
    requires
        is_separator(c),
    ensures
        fields(a.push(c) + b, is_separator) == fields(a, is_separator) + fields(b, is_separator),
    decreases b.len(),
{
    let s = a.push(c) + b;
    if b.len() == 0 {
        assert(s =~= a.push(c));
        assert(s.drop_last() =~= a);
        assert(fields(a, is_separator) + fields(b, is_separator) =~= fields(a, is_separator));
    } else {
        let b1 = b.drop_last();
        assert(s.drop_last() =~= a.push(c) + b1);
        law_fields_part_at_separators(a, c, b1, is_separator);
        let fa = fields(a, is_separator);
        let fb = fields(b1, is_separator);
        if is_separator(b.last()) {
        } else if b1.len() == 0 {
            assert(s[s.len() - 2] == c);
            assert(fb.len() == 0);
            assert(fields(b, is_separator) =~= seq![seq![b.last()]]);
            assert((fa + fb).push(seq![b.last()]) =~= fa + fields(b, is_separator));
        } else {
            assert(s[s.len() - 2] == b[b.len() - 2]);
            if is_separator(b[b.len() - 2]) {
                assert((fa + fb).push(seq![b.last()]) =~= fa + fb.push(seq![b.last()]));
            } else {
                assert(b1.last() == b[b.len() - 2]);
                lemma_some_field(b1, is_separator);
                assert((fa + fb).last() == fb.last());
                assert((fa + fb).drop_last() =~= fa + fb.drop_last());
                let grown = fb.last().push(b.last());
                assert((fa + fb).drop_last().push(grown) =~= fa + fb.drop_last().push(grown));
            }
        }
    }
}

proof fn lemma_some_field(s: Seq<char>, is_separator: spec_fn(char) -> bool)
    requires
        s.len() > 0,
        !is_separator(s.last()),
    ensures
        fields(s, is_separator).len() > 0,
{
    reveal_with_fuel(fields, 2);
}

/// A text without separators is its only field, and the empty text has none.
pub proof fn law_whole_text_is_a_field(s: Seq<char>, is_separator: spec_fn(char) -> bool)
    requires
        forall|i: int| 0 <= i < s.len() ==> !is_separator(#[trigger] s[i]),
    ensures
        s.len() > 0 ==> fields(s, is_separator) == seq![s],
        s.len() == 0 ==> fields(s, is_separator).len() == 0,
    decreases s.len(),
{
    if s.len() > 0 {
        let rest = s.drop_last();
        assert forall|i: int| 0 <= i < rest.len() implies !is_separator(#[trigger] rest[i]) by {
            assert(rest[i] == s[i]);
        }
        law_whole_text_is_a_field(rest, is_separator);
        assert(!is_separator(s[s.len() - 1]));
        if s.len() == 1 {
            assert(s =~= seq![s.last()]);
            assert(fields(s, is_separator) =~= seq![s]);
        } else {
            assert(!is_separator(s[s.len() - 2]));
            assert(rest.push(s.last()) =~= s);
            assert(fields(s, is_separator) =~= seq![s]);
        }
    }
}

/// A separator parts a text: its pieces are those before it and then those after it.
pub proof fn law_pieces_part_at_separators(a: Seq<char>, c: char, b: Seq<char>)
    ensures
        pieces(a.push(c) + b, c) == pieces(a, c) + pieces(b, c),
        pieces(b, c).len() > 0,
    decreases b.len(),
{
    let s = a.push(c) + b;
    if b.len() == 0 {
        assert(s =~= a.push(c));
        assert(s.drop_last() =~= a);
        assert(pieces(a, c).push(seq![]) =~= pieces(a, c) + pieces(b, c));
    } else {
        let b1 = b.drop_last();
        assert(s.drop_last() =~= a.push(c) + b1);
        law_pieces_part_at_separators(a, c, b1);
        let pa = pieces(a, c);
        let pb = pieces(b1, c);
        if b.last() == c {
            assert((pa + pb).push(seq![]) =~= pa + pb.push(seq![]));
        } else {
            assert((pa + pb).last() == pb.last());
            assert((pa + pb).drop_last() =~= pa + pb.drop_last());
            let grown = pb.last().push(b.last());
            assert((pa + pb).drop_last().push(grown) =~= pa + pb.drop_last().push(grown));
        }
    }
}

/// A text without the separator is its only piece.
pub proof fn law_whole_text_is_a_piece(s: Seq<char>, c: char)
    requires
        !s.contains(c),
    ensures
        pieces(s, c) == seq![s],
    decreases s.len(),
{
    if s.len() == 0 {
        assert(s =~= seq![]);
    } else {
        let rest = s.drop_last();
        assert(s[s.len() - 1] != c) by {
            assert(s.contains(s[s.len() - 1]));
        }
        assert(!rest.contains(c)) by {
            if rest.contains(c) {
                let i = choose|i: int| 0 <= i < rest.len() && rest[i] == c;
                assert(s[i] == c);
            }
        }
        law_whole_text_is_a_piece(rest, c);
        assert(rest.push(s.last()) =~= s);
        assert(pieces(s, c) =~= seq![s]);
    }
}

/// Pieces put together again with the separator between them are the text.
pub proof fn law_pieces_make_up_the_text(s: Seq<char>, c: char)
    ensures
        joined(pieces(s, c), seq![c]) == s,
        pieces(s, c).len() > 0,
    decreases s.len(),
{
    if s.len() == 0 {
        assert(s =~= seq![]);
    } else {
        let rest = s.drop_last();
        law_pieces_make_up_the_text(rest, c);
        let before = pieces(rest, c);
        if s.last() == c {
            let all = before.push(seq![]);
            assert(all.drop_last() =~= before);
            assert(joined(all, seq![c]) =~= joined(before, seq![c]) + seq![c] + seq![]);
            assert(s =~= rest + seq![c]);
        } else {
            let grown = before.last().push(s.last());
            let all = before.drop_last().push(grown);
            assert(all.drop_last() =~= before.drop_last());
            assert(rest.push(s.last()) =~= s);
            if before.len() == 1 {
                assert(all[0] == grown);
            } else {
                assert(joined(all, seq![c]) =~= joined(before, seq![c]).push(s.last()));
            }
        }
    }
}

/// Lists that are joined one after the other have one separator more between them.
pub proof fn law_joined_lists(a: Seq<Seq<char>>, b: Seq<Seq<char>>, separator: Seq<char>)
    requires
        a.len() > 0,
        b.len() > 0,
    ensures
        joined(a + b, separator) == joined(a, separator) + separator + joined(b, separator),
        a.len() == 1 ==> joined(a, separator) == a[0],
    decreases b.len(),
{
    let b1 = b.drop_last();
    assert((a + b).drop_last() =~= a + b1);
    assert((a + b).last() == b.last());
    if b.len() == 1 {
        assert(a + b1 =~= a);
        assert(b.last() == b[0]);
    } else {
        law_joined_lists(a, b1, separator);
        assert(joined(a + b, separator) =~= joined(a, separator) + separator + (joined(
            b1,
            separator,
        ) + separator + b.last()));
    }
}

/// The digits of a number, read from the left, make it up; it begins with a zero only where it is
/// zero, so that no two numbers read the same.
pub proof fn law_decimal_makes_up_the_number(n: nat)
    ensures
        decimal(n).fold_left(0, |v: int, c: char| 10 * v + (c as int - '0' as int)) == n,
        decimal(n).len() > 0,
        decimal(n)[0] == '0' ==> n == 0 && decimal(n).len() == 1,
        forall|i: int| 0 <= i < decimal(n).len() ==> '0' <= #[trigger] decimal(n)[i] <= '9',
    decreases n,
{
    let read = |v: int, c: char| 10 * v + (c as int - '0' as int);
    let d = decimal(n);
    if n < 10 {
        let none = Seq::<char>::empty();
        assert(d.drop_last() =~= none);
        assert(none.fold_left(0, read) == 0);
        assert(d.last() as int == 48 + n);
        assert(d.fold_left(0, read) == read(d.drop_last().fold_left(0, read), d.last()));
    } else {
        law_decimal_makes_up_the_number(n / 10);
        assert(d.drop_last() =~= decimal(n / 10));
        assert(n == 10 * (n / 10) + n % 10) by (nonlinear_arith);
        assert(d.last() as int == 48 + n % 10);
        assert(d.fold_left(0, read) == read(d.drop_last().fold_left(0, read), d.last()));
        assert(d[0] == decimal(n / 10)[0]);
    }
}

/// Two numbers that read the same are the same, with their signs.
pub proof fn law_numbers_differ(a: int, b: int)
    requires
        signed_decimal(a) == signed_decimal(b),
    ensures
        a == b,
{
    let x: nat = (if a < 0 {
        -a
    } else {
        a
    }) as nat;
    let y: nat = (if b < 0 {
        -b
    } else {
        b
    }) as nat;
    law_decimal_makes_up_the_number(x);
    law_decimal_makes_up_the_number(y);
    assert(signed_decimal(a)[0] == signed_decimal(b)[0]);
    if a < 0 {
        assert(signed_decimal(a)[0] == '-');
        assert(b < 0);
        assert(signed_decimal(a).drop_first() =~= decimal(x));
        assert(signed_decimal(b).drop_first() =~= decimal(y));
    } else if b < 0 {
        assert(signed_decimal(b)[0] == '-');
    }
    assert(decimal(x) == decimal(y));
}

/// Small letters stay, capitals become the small letter 32 places on, and nothing else changes.
pub proof fn law_small_letters(c: char)
    ensures
        'A' <= c <= 'Z' ==> ascii_lower(c) as int == c as int + ('a' as int - 'A' as int),
        !('A' <= c <= 'Z') ==> ascii_lower(c) == c,
        ascii_lower(ascii_lower(c)) == ascii_lower(c),
{
}

/// A text begins with a prefix exactly where it is the prefix and something behind it.
pub proof fn law_prefix_and_rest(s: Seq<char>, prefix: Seq<char>, rest: Seq<char>)
    ensures
        has_prefix(prefix + rest, prefix),
        has_prefix(s, prefix) ==> s == prefix + s.skip(prefix.len() as int),
        has_prefix(s, prefix) ==> prefix.len() <= s.len(),
{
    assert((prefix + rest).take(prefix.len() as int) =~= prefix);
    if has_prefix(s, prefix) {
        assert(s =~= s.take(prefix.len() as int) + s.skip(prefix.len() as int));
    }
}

/// A part occurs in a text exactly where the text is what stands before it, the part, and what
/// stands behind it.
pub proof fn law_part_of_a_text(before: Seq<char>, part: Seq<char>, after: Seq<char>, s: Seq<char>)
    ensures
        occurs_at(before + part + after, part, before.len() as int),
        contains_text(before + part + after, part),
        contains_text(s, part) ==> exists|i: int|
            0 <= i <= s.len() - part.len() && s == #[trigger] s.take(i) + part + s.skip(
                i + part.len(),
            ),
{
    let all = before + part + after;
    let n = before.len() as int;
    assert(all.subrange(n, n + part.len()) =~= part);
    assert(occurs_at(all, part, n));
    if contains_text(s, part) {
        let i = choose|i: int| occurs_at(s, part, i);
        assert(s =~= s.take(i) + s.subrange(i, i + part.len()) + s.skip(i + part.len()));
    }
}

/// A comma parts a list only where commas count; white space always does, and nothing else.
pub proof fn law_what_separates(c: char, commas: bool)
    ensures
        is_space(c) ==> separates(c, commas),
        c == ',' ==> separates(c, true) && !separates(c, false),
        c != ',' && !is_space(c) ==> !separates(c, commas),
{
}

} // verus!
