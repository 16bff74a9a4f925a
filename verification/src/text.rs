//! Text helpers on strings, modelled as sequences of characters.
use vstd::prelude::*;
use vstd::utf8::encode_utf8;

verus! {

/// `String::push` appends one character to the end of the string.
pub assume_specification[ String::push ](text: &mut String, c: char)
    ensures
        final(text)@ == old(text)@.push(c),
;

/// The UTF-8 form of a text.
pub open spec fn utf8(text: Seq<char>) -> Seq<u8> {
    encode_utf8(text)
}

/// `str::len`: the number of bytes in the UTF-8 form.  Like every allocated
/// object of Rust, a string holds at most `isize::MAX` bytes.
#[verifier::external_body]
pub(crate) fn byte_len(text: &str) -> (r: usize)
    ensures
        r == utf8(text@).len(),
        r <= isize::MAX,
{
    text.len()
}

/// The characters of a text, in order.
pub fn chars_of(text: &str) -> (r: Vec<char>)
    ensures
        r@ == text@,
{
    let mut r: Vec<char> = Vec::new();
    for c in it: text.chars()
        invariant
            r@ == text@.take(it.index() as int),
            it.seq() == text@,
    {
        r.push(c);
    }
    assert(text@.take(text@.len() as int) == text@);
    r
}

/// An owned copy of a text.
pub fn owned(text: &str) -> (r: String)
    ensures
        r@ == text@,
{
    text.to_owned()
}

/// The view of an optional text.
pub open spec fn text_option(text: Option<String>) -> Option<Seq<char>> {
    match text {
        Some(text) => Some(text@),
        None => None,
    }
}

/// A copy of an optional text.
pub fn owned_option(text: &Option<String>) -> (r: Option<String>)
    ensures
        text_option(r) == text_option(*text),
{
    match text {
        Some(text) => Some(owned(text.as_str())),
        None => None,
    }
}

/// The view of an optional text slice.
pub open spec fn str_option(text: Option<&str>) -> Option<Seq<char>> {
    match text {
        Some(text) => Some(text@),
        None => None,
    }
}

/// Two texts joined.
pub fn cat2(a: &str, b: &str) -> (r: String)
    ensures
        r@ == a@ + b@,
{
    let mut r = a.to_owned();
    r.append(b);
    r
}

/// Three texts joined.
pub fn cat3(a: &str, b: &str, c: &str) -> (r: String)
    ensures
        r@ == a@ + b@ + c@,
{
    let mut r = cat2(a, b);
    r.append(c);
    r
}

/// Four texts joined.
pub fn cat4(a: &str, b: &str, c: &str, d: &str) -> (r: String)
    ensures
        r@ == a@ + b@ + c@ + d@,
{
    let mut r = cat3(a, b, c);
    r.append(d);
    r
}

/// Five texts joined.
pub fn cat5(a: &str, b: &str, c: &str, d: &str, e: &str) -> (r: String)
    ensures
        r@ == a@ + b@ + c@ + d@ + e@,
{
    let mut r = cat4(a, b, c, d);
    r.append(e);
    r
}

/// Six texts joined.
pub fn cat6(a: &str, b: &str, c: &str, d: &str, e: &str, f: &str) -> (r: String)
    ensures
        r@ == a@ + b@ + c@ + d@ + e@ + f@,
{
    let mut r = cat5(a, b, c, d, e);
    r.append(f);
    r
}

/// Seven texts joined.
pub fn cat7(a: &str, b: &str, c: &str, d: &str, e: &str, f: &str, g: &str) -> (r: String)
    ensures
        r@ == a@ + b@ + c@ + d@ + e@ + f@ + g@,
{
    let mut r = cat6(a, b, c, d, e, f);
    r.append(g);
    r
}

/// The character of a decimal digit.
pub open spec fn digit_char(digit: nat) -> char {
    (digit + 48) as char
}

/// The decimal notation of a number, without leading zeros.
pub open spec fn decimal(value: nat) -> Seq<char>
    decreases value,
{
    if value < 10 {
        seq![digit_char(value)]
    } else {
        decimal(value / 10).push(digit_char(value % 10))
    }
}

fn push_decimal(out: &mut String, value: u64)
    ensures
        final(out)@ == old(out)@ + decimal(value as nat),
    decreases value,
{
    if value >= 10 {
        push_decimal(out, value / 10);
    }
    let digit: u8 = (value % 10) as u8;
    out.push((48u8 + digit) as char);
    assert(out@ == old(out)@ + decimal(value as nat));
}

/// The decimal notation of `value`.
pub fn decimal_text(value: u64) -> (r: String)
    ensures
        r@ == decimal(value as nat),
{
    let mut r = String::new();
    push_decimal(&mut r, value);
    r
}

/// The decimal notation of a length or count.
pub fn decimal_size(value: usize) -> (r: String)
    ensures
        r@ == decimal(value as nat),
{
    decimal_text(value as u64)
}

/// Whether the two byte sequences agree below `at` and `a` is the smaller one
/// there, either by ending or by its byte.
pub open spec fn smaller_at(a: Seq<u8>, b: Seq<u8>, at: int) -> bool {
    &&& 0 <= at <= a.len()
    &&& at < b.len()
    &&& forall|i: int| 0 <= i < at ==> a[i] == b[i]
    &&& at == a.len() || a[at] < b[at]
}

/// The lexicographic order of byte sequences.
pub open spec fn bytes_less(a: Seq<u8>, b: Seq<u8>) -> bool {
    exists|at: int| #[trigger] smaller_at(a, b, at)
}

/// The order of texts: that of their UTF-8 bytes.
pub open spec fn text_less(a: Seq<char>, b: Seq<char>) -> bool {
    bytes_less(utf8(a), utf8(b))
}

/// No sequence is smaller than itself.
pub proof fn lemma_bytes_less_irreflexive(a: Seq<u8>)
    ensures
        !bytes_less(a, a),
{
}

/// The order of byte sequences is transitive.
pub proof fn lemma_bytes_less_transitive(a: Seq<u8>, b: Seq<u8>, c: Seq<u8>)
    requires
        bytes_less(a, b),
        bytes_less(b, c),
    ensures
        bytes_less(a, c),
{
    let i = choose|at: int| #[trigger] smaller_at(a, b, at);
    let j = choose|at: int| #[trigger] smaller_at(b, c, at);
    let k = if i <= j { i } else { j };
    assert(smaller_at(a, c, k));
}

/// Of two different byte sequences one comes first.
pub proof fn lemma_bytes_less_total(x: Seq<u8>, y: Seq<u8>)
    ensures
        x == y || bytes_less(x, y) || bytes_less(y, x),
{
    if x != y {
        let n = if x.len() <= y.len() { x.len() as int } else { y.len() as int };
        lemma_first_difference(x, y, n);
    }
}

/// Of two different texts one comes first.
pub proof fn lemma_text_less_total(a: Seq<char>, b: Seq<char>)
    ensures
        a == b || text_less(a, b) || text_less(b, a),
{
    lemma_bytes_less_total(utf8(a), utf8(b));
    if utf8(a) == utf8(b) {
        lemma_utf8_injective(a, b);
    }
}

proof fn lemma_first_difference(x: Seq<u8>, y: Seq<u8>, n: int)
    requires
        0 <= n <= x.len(),
        n <= y.len(),
        n == x.len() || n == y.len() || x[n] != y[n],
        x != y,
    ensures
        bytes_less(x, y) || bytes_less(y, x),
    decreases n,
{
    if exists|i: int| 0 <= i < n && x[i] != y[i] {
        let i = choose|i: int| 0 <= i < n && x[i] != y[i];
        lemma_first_difference(x, y, i);
    } else if n < x.len() && n < y.len() {
        if x[n] < y[n] {
            assert(smaller_at(x, y, n));
        } else {
            assert(smaller_at(y, x, n));
        }
    } else if x.len() == y.len() {
        assert(x =~= y);
    } else if x.len() < y.len() {
        assert(smaller_at(x, y, n));
    } else {
        assert(smaller_at(y, x, n));
    }
}

/// A text is determined by its UTF-8 form.
pub proof fn lemma_utf8_injective(a: Seq<char>, b: Seq<char>)
    requires
        utf8(a) == utf8(b),
    ensures
        a == b,
{
    vstd::utf8::encode_utf8_decode_utf8(a);
    vstd::utf8::encode_utf8_decode_utf8(b);
}

/// The order of texts is strict and transitive.
pub proof fn lemma_text_less_transitive(a: Seq<char>, b: Seq<char>, c: Seq<char>)
    requires
        text_less(a, b),
        text_less(b, c),
    ensures
        text_less(a, c),
        a != c,
{
    lemma_bytes_less_transitive(utf8(a), utf8(b), utf8(c));
    lemma_bytes_less_irreflexive(utf8(a));
}

/// How one text stands to another.
#[derive(Clone, Copy, Debug, PartialEq, Eq, Structural)]
pub enum Relation {
    Before,
    Same,
    After,
}

/// The relation of `a` to `b` in the order of texts.
pub open spec fn relation(a: Seq<char>, b: Seq<char>) -> Relation {
    if a == b {
        Relation::Same
    } else if text_less(a, b) {
        Relation::Before
    } else {
        Relation::After
    }
}

/// Compares two texts by their UTF-8 bytes.
pub fn relate(a: &str, b: &str) -> (r: Relation)
    ensures
        r == relation(a@, b@),
        r is After ==> text_less(b@, a@),
        r is Before ==> a@ != b@,
{
    let x = a.as_bytes();
    let y = b.as_bytes();
    let mut i: usize = 0;
    while i < x.len() && i < y.len() && x[i] == y[i]
        invariant
            i <= x.len(),
            i <= y.len(),
            forall|j: int| 0 <= j < i ==> x@[j] == y@[j],
        decreases x.len() - i,
    {
        i += 1;
    }
    proof {
        lemma_text_less_total(a@, b@);
        lemma_bytes_less_irreflexive(x@);
    }
    if i == x.len() && i == y.len() {
        proof {
            assert(x@ =~= y@);
            lemma_utf8_injective(a@, b@);
        }
        Relation::Same
    } else if i == x.len() || (i < y.len() && x[i] < y[i]) {
        assert(smaller_at(x@, y@, i as int));
        Relation::Before
    } else {
        assert(smaller_at(y@, x@, i as int));
        proof {
            if text_less(a@, b@) {
                lemma_bytes_less_transitive(x@, y@, x@);
            }
        }
        Relation::After
    }
}

/// Whether one byte slice comes before another.
pub fn bytes_before(x: &[u8], y: &[u8]) -> (r: bool)
    ensures
        r == bytes_less(x@, y@),
{
    let mut i: usize = 0;
    while i < x.len() && i < y.len() && x[i] == y[i]
        invariant
            i <= x.len(),
            i <= y.len(),
            forall|j: int| 0 <= j < i ==> x@[j] == y@[j],
        decreases x.len() - i,
    {
        i += 1;
    }
    if i < y.len() && (i == x.len() || x[i] < y[i]) {
        assert(smaller_at(x@, y@, i as int));
        true
    } else {
        proof {
            if i < x.len() {
                assert(smaller_at(y@, x@, i as int));
                if bytes_less(x@, y@) {
                    lemma_bytes_less_transitive(x@, y@, x@);
                    lemma_bytes_less_irreflexive(x@);
                }
            } else {
                assert(x@ =~= y@);
                lemma_bytes_less_irreflexive(x@);
            }
        }
        false
    }
}

/// Whether two texts are equal.
pub fn same_text(a: &str, b: &str) -> (r: bool)
    ensures
        r == (a@ == b@),
{
    match relate(a, b) {
        Relation::Same => true,
        _ => false,
    }
}

/// Whether two byte slices are equal.
pub fn same_bytes(a: &[u8], b: &[u8]) -> (r: bool)
    ensures
        r == (a@ == b@),
{
    if a.len() != b.len() {
        return false;
    }
    for i in 0..a.len()
        invariant
            a@.len() == b@.len(),
            forall|j: int| 0 <= j < i ==> a@[j] == b@[j],
    {
        if a[i] != b[i] {
            return false;
        }
    }
    assert(a@ =~= b@);
    true
}

/// The position of the last `c` in the text, if there is one.
pub open spec fn last_position(text: Seq<char>, c: char) -> Option<int>
    decreases text.len(),
{
    if text.len() == 0 {
        None
    } else if text.last() == c {
        Some(text.len() - 1)
    } else {
        last_position(text.drop_last(), c)
    }
}

/// What stands before the last `c`, or nothing.
pub open spec fn before_last(text: Seq<char>, c: char) -> Seq<char> {
    match last_position(text, c) {
        Some(at) => text.take(at),
        None => Seq::empty(),
    }
}

/// What stands after the last `c`, or the whole text.
pub open spec fn after_last(text: Seq<char>, c: char) -> Seq<char> {
    match last_position(text, c) {
        Some(at) => text.skip(at + 1),
        None => text,
    }
}

/// Finds the last occurrence of a character.
pub fn find_last(chars: &[char], c: char) -> (r: Option<usize>)
    ensures
        match r {
            Some(at) => at < chars@.len() && last_position(chars@, c) == Some(at as int),
            None => last_position(chars@, c) is None,
        },
{
    let mut i: usize = chars.len();
    assert(chars@.take(i as int) == chars@);
    while i > 0
        invariant
            i <= chars@.len(),
            last_position(chars@, c) == last_position(chars@.take(i as int), c),
        decreases i,
    {
        assert(chars@.take(i as int).drop_last() == chars@.take(i - 1));
        if chars[i - 1] == c {
            return Some(i - 1);
        }
        i -= 1;
    }
    None
}

/// Whether a character occurs in a text.
pub fn has_char(text: &str, c: char) -> (r: bool)
    ensures
        r == text@.contains(c),
{
    for x in it: text.chars()
        invariant
            it.seq() == text@,
            forall|j: int| 0 <= j < it.index() ==> text@[j] != c,
    {
        if x == c {
            assert(text@[it.index() as int] == c);
            return true;
        }
    }
    false
}

/// Every character takes at least one byte.
pub proof fn lemma_chars_within_bytes(text: Seq<char>)
    ensures
        text.len() <= utf8(text).len(),
    decreases text.len(),
{
    if text.len() > 0 {
        lemma_chars_within_bytes(text.drop_first());
    }
}

/// How often a character occurs in a text.
pub open spec fn occurrences(text: Seq<char>, c: char) -> nat
    decreases text.len(),
{
    if text.len() == 0 {
        0
    } else {
        occurrences(text.drop_last(), c) + if text.last() == c { 1nat } else { 0nat }
    }
}

/// Counts the occurrences of a character.
pub fn count_char(text: &str, c: char) -> (r: usize)
    ensures
        r == occurrences(text@, c),
        r <= isize::MAX,
{
    let bytes: usize = byte_len(text);
    proof {
        lemma_chars_within_bytes(text@);
    }
    let mut r: usize = 0;
    for x in it: text.chars()
        invariant
            it.seq() == text@,
            r == occurrences(text@.take(it.index() as int), c),
            r <= it.index(),
            text@.len() <= bytes <= isize::MAX,
    {
        assert(text@.take(it.index() + 1).drop_last() == text@.take(it.index() as int));
        if x == c {
            r += 1;
        }
    }
    assert(text@.take(text@.len() as int) == text@);
    r
}

/// The parts of a text between the occurrences of a character.
pub open spec fn split(text: Seq<char>, c: char) -> Seq<Seq<char>>
    decreases text.len(),
{
    if text.len() == 0 {
        seq![Seq::<char>::empty()]
    } else {
        let parts = split(text.drop_last(), c);
        if text.last() == c {
            parts.push(Seq::empty())
        } else {
            parts.drop_last().push(parts.last().push(text.last()))
        }
    }
}

/// Every text has at least one part, and no part holds the character that
/// separates them.
pub proof fn lemma_split_parts(text: Seq<char>, c: char)
    ensures
        split(text, c).len() > 0,
        forall|i: int| 0 <= i < split(text, c).len() ==> !(#[trigger] split(text, c)[i]).contains(c),
    decreases text.len(),
{
    if text.len() > 0 {
        lemma_split_parts(text.drop_last(), c);
        let parts = split(text.drop_last(), c);
        let all = split(text, c);
        assert forall|i: int| 0 <= i < all.len() implies !(#[trigger] all[i]).contains(c) by {
            if text.last() == c {
                if i < parts.len() {
                    assert(all[i] == parts[i]);
                }
            } else if i < parts.len() - 1 {
                assert(all[i] == parts[i]);
            } else {
                assert(parts.last() == parts[parts.len() - 1]);
                if all[i].contains(c) {
                    let at = all[i].index_of(c);
                    assert(parts.last()[at] == c);
                }
            }
        }
    }
}

/// The parts of a text between the occurrences of a character.
pub fn split_text(text: &str, c: char) -> (r: Vec<String>)
    ensures
        Seq::new(r@.len(), |i: int| r@[i]@) == split(text@, c),
{
    let mut r: Vec<String> = Vec::new();
    let mut part = String::new();
    proof {
        assert(seq![part@] =~= split(text@.take(0), c));
        assert(Seq::new(r@.len(), |i: int| r@[i]@).push(part@) =~= seq![part@]);
    }
    for x in it: text.chars()
        invariant
            it.seq() == text@,
            Seq::new(r@.len(), |i: int| r@[i]@).push(part@) == split(text@.take(it.index() as int), c),
    {
        let ghost before = Seq::new(r@.len(), |i: int| r@[i]@);
        let ghost open_part = part@;
        let ghost next = text@.take(it.index() + 1);
        assert(next.drop_last() =~= text@.take(it.index() as int));
        assert(before.push(open_part).drop_last() =~= before);
        if x == c {
            r.push(part);
            part = String::new();
            assert(Seq::new(r@.len(), |i: int| r@[i]@) =~= before.push(open_part));
        } else {
            part.push(x);
            assert(Seq::new(r@.len(), |i: int| r@[i]@) =~= before);
        }
        assert(Seq::new(r@.len(), |i: int| r@[i]@).push(part@) =~= split(next, c));
    }
    assert(text@.take(text@.len() as int) == text@);
    let ghost before = Seq::new(r@.len(), |i: int| r@[i]@);
    let ghost last = part@;
    r.push(part);
    assert(Seq::new(r@.len(), |i: int| r@[i]@) =~= before.push(last));
    r
}

/// Whether `path` lies strictly below the directory `dir`.
pub open spec fn below(path: Seq<char>, dir: Seq<char>) -> bool {
    &&& dir.len() < path.len()
    &&& path.take(dir.len() as int) == dir
    &&& path[dir.len() as int] == '/'
}

/// Whether `path` lies strictly below the directory `dir`.
pub fn is_below(path: &str, dir: &str) -> (r: bool)
    ensures
        r == below(path@, dir@),
{
    let p = chars_of(path);
    let d = chars_of(dir);
    if d.len() >= p.len() {
        return false;
    }
    for i in 0..d.len()
        invariant
            p@ == path@,
            d@ == dir@,
            d@.len() < p@.len(),
            forall|j: int| 0 <= j < i ==> p@[j] == d@[j],
    {
        if p[i] != d[i] {
            assert(p@.take(d@.len() as int)[i as int] != d@[i as int]);
            return false;
        }
    }
    assert(p@.take(d@.len() as int) == d@);
    p[d.len()] == '/'
}

/// Whether a character is white space in the sense of Unicode.
pub open spec fn is_white(c: char) -> bool {
    let n = c as u32;
    ||| 0x9 <= n <= 0xd
    ||| n == 0x20
    ||| n == 0x85
    ||| n == 0xa0
    ||| n == 0x1680
    ||| 0x2000 <= n <= 0x200a
    ||| n == 0x2028
    ||| n == 0x2029
    ||| n == 0x202f
    ||| n == 0x205f
    ||| n == 0x3000
}

fn white(c: char) -> (r: bool)
    ensures
        r == is_white(c),
{
    let n = c as u32;
    (0x9 <= n && n <= 0xd) || n == 0x20 || n == 0x85 || n == 0xa0 || n == 0x1680 || (0x2000 <= n && n <= 0x200a) || n
        == 0x2028 || n == 0x2029 || n == 0x202f || n == 0x205f || n == 0x3000
}

/// A text without the white space at its start.
pub open spec fn trim_start(text: Seq<char>) -> Seq<char>
    decreases text.len(),
{
    if text.len() > 0 && is_white(text[0]) {
        trim_start(text.drop_first())
    } else {
        text
    }
}

/// A text without the white space at its end.
pub open spec fn trim_end(text: Seq<char>) -> Seq<char>
    decreases text.len(),
{
    if text.len() > 0 && is_white(text.last()) {
        trim_end(text.drop_last())
    } else {
        text
    }
}

/// A text without the white space at either end.
pub open spec fn trim(text: Seq<char>) -> Seq<char> {
    trim_end(trim_start(text))
}

/// A text without the white space at either end.
pub fn trimmed(text: &str) -> (r: &str)
    ensures
        r@ == trim(text@),
{
    let chars = chars_of(text);
    let mut from: usize = 0;
    assert(chars@.skip(0) =~= chars@);
    while from < chars.len() && white(chars[from])
        invariant
            from <= chars@.len(),
            trim_start(chars@) == trim_start(chars@.skip(from as int)),
        decreases chars@.len() - from,
    {
        assert(chars@.skip(from as int).drop_first() =~= chars@.skip(from + 1));
        from += 1;
    }
    let ghost rest = chars@.skip(from as int);
    assert(rest.len() == 0 || !is_white(rest[0]));
    assert(trim_start(chars@) == rest);
    let mut to: usize = chars.len();
    assert(chars@.subrange(from as int, to as int) =~= rest);
    while to > from && white(chars[to - 1])
        invariant
            from <= to <= chars@.len(),
            trim_end(rest) == trim_end(chars@.subrange(from as int, to as int)),
        decreases to,
    {
        assert(chars@.subrange(from as int, to as int).drop_last() =~= chars@.subrange(from as int, to - 1));
        to -= 1;
    }
    let ghost part = chars@.subrange(from as int, to as int);
    assert(part.len() == 0 || !is_white(part.last()));
    text.substring_char(from, to)
}

/// The lower-case form of an ASCII letter, any other character as it is.
pub open spec fn ascii_lower(c: char) -> char {
    if 'A' <= c <= 'Z' {
        (c as u8 + 32) as char
    } else {
        c
    }
}

/// A text with its ASCII letters in lower case.
pub open spec fn lower(text: Seq<char>) -> Seq<char> {
    Seq::new(text.len(), |i: int| ascii_lower(text[i]))
}

/// A text with its ASCII letters in lower case.
pub fn lowered(text: &str) -> (r: String)
    ensures
        r@ == lower(text@),
{
    let mut r = String::new();
    for c in it: text.chars()
        invariant
            it.seq() == text@,
            r@ == lower(text@).take(it.index() as int),
    {
        let ghost before = r@;
        if 'A' <= c && c <= 'Z' {
            r.push((c as u8 + 32) as char);
        } else {
            r.push(c);
        }
        assert(lower(text@).take(it.index() + 1) =~= before.push(ascii_lower(c)));
    }
    assert(lower(text@).take(text@.len() as int) =~= lower(text@));
    r
}

/// Whether a text starts with another one.
pub open spec fn starts_with(text: Seq<char>, prefix: Seq<char>) -> bool {
    prefix.len() <= text.len() && text.take(prefix.len() as int) == prefix
}

/// What follows a prefix, where the text starts with it.
pub fn without_prefix<'a>(text: &'a str, prefix: &str) -> (r: Option<&'a str>)
    ensures
        r is Some == starts_with(text@, prefix@),
        r matches Some(rest) ==> rest@ == text@.skip(prefix@.len() as int),
{
    let t = chars_of(text);
    let p = chars_of(prefix);
    if p.len() > t.len() {
        return None;
    }
    for i in 0..p.len()
        invariant
            t@ == text@,
            p@ == prefix@,
            p@.len() <= t@.len(),
            forall|j: int| 0 <= j < i ==> t@[j] == p@[j],
    {
        if t[i] != p[i] {
            assert(t@.take(p@.len() as int)[i as int] != p@[i as int]);
            return None;
        }
    }
    assert(t@.take(p@.len() as int) =~= p@);
    assert(t@.subrange(p@.len() as int, t@.len() as int) =~= t@.skip(p@.len() as int));
    Some(text.substring_char(p.len(), t.len()))
}

/// Whether a part of a text is another text.
pub open spec fn has_part(text: Seq<char>, part: Seq<char>) -> bool {
    exists|at: int| 0 <= at && at + part.len() <= text.len() && #[trigger] text.subrange(at, at + part.len()) == part
}

/// Whether a part of a text is another text.
pub fn contains_text(text: &str, part: &str) -> (r: bool)
    ensures
        r == has_part(text@, part@),
{
    let t = chars_of(text);
    let p = chars_of(part);
    if p.len() > t.len() {
        return false;
    }
    let size: usize = t.len();
    let last: usize = size - p.len();
    let mut at: usize = 0;
    while at <= last
        invariant
            t@ == text@,
            p@ == part@,
            last + p@.len() == t@.len(),
            t@.len() == size,
            at <= last + 1,
            forall|j: int| 0 <= j < at ==> #[trigger] t@.subrange(j, j + p@.len()) != p@,
        decreases last + 1 - at,
    {
        let mut k: usize = 0;
        while k < p.len() && t[at + k] == p[k]
            invariant
                k <= p@.len(),
                at + p@.len() <= t@.len() <= usize::MAX,
                forall|j: int| 0 <= j < k ==> t@[at + j] == p@[j],
            decreases p@.len() - k,
        {
            k += 1;
        }
        if k == p.len() {
            assert(t@.subrange(at as int, at + p@.len()) =~= p@);
            return true;
        }
        assert(t@.subrange(at as int, at + p@.len())[k as int] != p@[k as int]);
        if at == last {
            return false;
        }
        at += 1;
    }
    false
}

/// A text has another one as a part exactly where it is that text with
/// something, or nothing, before and behind it.
pub proof fn law_parts_are_found_anywhere(text: Seq<char>, part: Seq<char>, before: Seq<char>, behind: Seq<char>)
    ensures
        has_part(before + part + behind, part),
        has_part(text, part) ==> exists|a: Seq<char>, b: Seq<char>| text == #[trigger] (a + part + b),
{
    let all = before + part + behind;
    let at = before.len() as int;
    assert(all.subrange(at, at + part.len()) =~= part);
    if has_part(text, part) {
        let at = choose|at: int|
            0 <= at && at + part.len() <= text.len() && #[trigger] text.subrange(at, at + part.len()) == part;
        let a = text.take(at);
        let b = text.skip(at + part.len());
        assert(text =~= a + part + b);
    }
}

/// A path lies below a directory exactly where it is that directory, a slash
/// and something, or nothing, behind it.
pub proof fn law_below_means_behind_a_slash(path: Seq<char>, dir: Seq<char>, rest: Seq<char>)
    ensures
        below(dir.push('/') + rest, dir),
        below(path, dir) ==> path == dir.push('/') + path.skip(dir.len() as int + 1),
        !below(dir, dir),
{
    let all = dir.push('/') + rest;
    assert(all.take(dir.len() as int) =~= dir);
    if below(path, dir) {
        assert(path =~= path.take(dir.len() as int).push('/') + path.skip(dir.len() as int + 1));
    }
}

proof fn lemma_trim_start(text: Seq<char>)
    ensures
        trim_start(text).len() <= text.len(),
        trim_start(text) == text.skip(text.len() - trim_start(text).len()),
        forall|i: int| 0 <= i < text.len() - trim_start(text).len() ==> is_white(#[trigger] text[i]),
        trim_start(text).len() > 0 ==> !is_white(trim_start(text)[0]),
    decreases text.len(),
{
    if text.len() > 0 && is_white(text[0]) {
        let rest = text.drop_first();
        lemma_trim_start(rest);
        let n = text.len() - trim_start(text).len();
        assert(rest.skip(n - 1) =~= text.skip(n));
        assert forall|i: int| 0 <= i < n implies is_white(#[trigger] text[i]) by {
            if i > 0 {
                assert(text[i] == rest[i - 1]);
            }
        }
    } else {
        assert(text.skip(0) =~= text);
    }
}

proof fn lemma_trim_end(text: Seq<char>)
    ensures
        trim_end(text).len() <= text.len(),
        trim_end(text) == text.take(trim_end(text).len() as int),
        forall|i: int| trim_end(text).len() <= i < text.len() ==> is_white(#[trigger] text[i]),
        trim_end(text).len() > 0 ==> !is_white(trim_end(text).last()),
    decreases text.len(),
{
    if text.len() > 0 && is_white(text.last()) {
        let rest = text.drop_last();
        lemma_trim_end(rest);
        let n = trim_end(text).len() as int;
        assert(rest.take(n) =~= text.take(n));
        assert forall|i: int| n <= i < text.len() implies is_white(#[trigger] text[i]) by {
            if i < rest.len() {
                assert(text[i] == rest[i]);
            }
        }
    } else {
        assert(text.take(text.len() as int) =~= text);
    }
}

/// Trimming takes away white space at both ends and nothing else.
pub proof fn law_trimming_takes_only_white_space(text: Seq<char>) -> (parts: (Seq<char>, Seq<char>))
    ensures
        text == parts.0 + trim(text) + parts.1,
        forall|i: int| 0 <= i < parts.0.len() ==> is_white(#[trigger] parts.0[i]),
        forall|i: int| 0 <= i < parts.1.len() ==> is_white(#[trigger] parts.1[i]),
        trim(text).len() > 0 ==> !is_white(trim(text)[0]) && !is_white(trim(text).last()),
{
    lemma_trim_start(text);
    let rest = trim_start(text);
    lemma_trim_end(rest);
    let n = text.len() - rest.len();
    let m = trim(text).len() as int;
    let before = text.take(n);
    let behind = rest.skip(m);
    assert(text =~= before + trim(text) + behind);
    assert forall|i: int| 0 <= i < behind.len() implies is_white(#[trigger] behind[i]) by {
        assert(behind[i] == rest[m + i]);
    }
    (before, behind)
}

proof fn lemma_last_position_found(text: Seq<char>, c: char)
    ensures
        match last_position(text, c) {
            Some(at) => 0 <= at < text.len() && text[at] == c && forall|i: int| at < i < text.len() ==> text[i] != c,
            None => forall|i: int| 0 <= i < text.len() ==> text[i] != c,
        },
    decreases text.len(),
{
    if text.len() > 0 && text.last() != c {
        lemma_last_position_found(text.drop_last(), c);
        assert forall|i: int| 0 <= i < text.len() - 1 implies text[i] == text.drop_last()[i] by {}
    }
}

/// What stands before and what stands behind the last separator make up a text
/// again, and behind it there is none left; a text without one stands behind
/// it as a whole.
pub proof fn law_texts_are_cut_at_the_last_separator(text: Seq<char>, c: char)
    ensures
        text.contains(c) ==> before_last(text, c).push(c) + after_last(text, c) == text,
        !text.contains(c) ==> before_last(text, c).len() == 0 && after_last(text, c) == text,
        !after_last(text, c).contains(c),
{
    lemma_last_position_found(text, c);
    match last_position(text, c) {
        Some(at) => {
            assert(text.take(at).push(c) + text.skip(at + 1) =~= text);
            assert(text[at] == c);
            let rest = text.skip(at + 1);
            assert forall|i: int| 0 <= i < rest.len() implies #[trigger] rest[i] != c by {
                assert(rest[i] == text[at + 1 + i]);
            }
        },
        None => {},
    }
}

/// Digits that are read one after the other as a decimal number.
pub open spec fn number_read(digits: Seq<char>) -> nat
    decreases digits.len(),
{
    if digits.len() == 0 {
        0
    } else {
        number_read(digits.drop_last()) * 10 + (digits.last() as nat - '0' as nat) as nat
    }
}

/// The decimal notation of a number is read back as that number, is made of
/// digits, and has no leading zero but that of zero.
pub proof fn law_decimal_notation_is_read_back(value: nat)
    ensures
        number_read(decimal(value)) == value,
        decimal(value).len() > 0,
        forall|i: int| 0 <= i < decimal(value).len() ==> '0' <= #[trigger] decimal(value)[i] <= '9',
        value > 0 ==> decimal(value)[0] != '0',
    decreases value,
{
    reveal_with_fuel(number_read, 2);
    if value >= 10 {
        law_decimal_notation_is_read_back(value / 10);
        assert(decimal(value).drop_last() =~= decimal(value / 10));
    } else {
        assert(decimal(value).drop_last() =~= Seq::empty());
    }
}

/// A text is split at every separator and nowhere else: the parts of two texts
/// with a separator between them are the parts of the first, then those of the
/// second, and a text without a separator is its only part.
pub proof fn law_texts_are_split_at_every_separator(a: Seq<char>, b: Seq<char>, c: char)
    ensures
        split(a + seq![c] + b, c) == split(a, c) + split(b, c),
        !a.contains(c) ==> split(a, c) == seq![a],
    decreases b.len(),
{
    lemma_split_whole(a, c);
    let text = a + seq![c] + b;
    lemma_split_parts(b, c);
    if b.len() == 0 {
        assert(text.drop_last() =~= a);
        assert(split(b, c) =~= seq![Seq::<char>::empty()]);
        assert(split(text, c) =~= split(a, c) + split(b, c));
    } else {
        assert(text.drop_last() =~= a + seq![c] + b.drop_last());
        law_texts_are_split_at_every_separator(a, b.drop_last(), c);
        lemma_split_parts(b.drop_last(), c);
        let front = split(a, c);
        let back = split(b.drop_last(), c);
        assert((front + back).last() == back.last());
        assert((front + back).drop_last() =~= front + back.drop_last());
        assert(split(text, c) =~= front + split(b, c));
    }
}

proof fn lemma_split_whole(text: Seq<char>, c: char)
    ensures
        !text.contains(c) ==> split(text, c) == seq![text],
    decreases text.len(),
{
    if !text.contains(c) {
        if text.len() == 0 {
            assert(text =~= Seq::empty());
        } else {
            let rest = text.drop_last();
            if rest.contains(c) {
                let at = rest.index_of(c);
                assert(text[at] == c);
            }
            lemma_split_whole(rest, c);
            assert(text[text.len() - 1] == text.last());
            assert(split(rest, c).last() == rest);
            assert(rest.push(text.last()) =~= text);
            assert(split(text, c) =~= seq![text]);
        }
    }
}

/// A character occurs in two texts together as often as in each, and a single
/// character occurs in itself once.
pub proof fn law_occurrences_add_up(a: Seq<char>, b: Seq<char>, c: char, d: char)
    ensures
        occurrences(a + b, c) == occurrences(a, c) + occurrences(b, c),
        occurrences(seq![d], c) == if c == d {
            1nat
        } else {
            0nat
        },
        occurrences(Seq::<char>::empty(), c) == 0,
    decreases b.len(),
{
    assert(seq![d].drop_last() =~= Seq::empty());
    assert(occurrences(Seq::<char>::empty(), c) == 0);
    if b.len() == 0 {
        assert(a + b =~= a);
    } else {
        assert((a + b).drop_last() =~= a + b.drop_last());
        law_occurrences_add_up(a, b.drop_last(), c, d);
    }
}

/// A text starts with another one exactly where the other one, followed by
/// some rest, is the text.
pub proof fn law_starts_are_followed_by_a_rest(text: Seq<char>, prefix: Seq<char>, rest: Seq<char>)
    ensures
        text == prefix + rest ==> starts_with(text, prefix) && text.skip(prefix.len() as int) == rest,
        starts_with(text, prefix) ==> text == prefix + text.skip(prefix.len() as int),
{
    if text == prefix + rest {
        assert(text.take(prefix.len() as int) =~= prefix);
        assert(text.skip(prefix.len() as int) =~= rest);
    }
    if starts_with(text, prefix) {
        assert(text =~= text.take(prefix.len() as int) + text.skip(prefix.len() as int));
    }
}

/// Lower case changes the 26 capital letters of ASCII into the letters beside
/// them in the alphabet of small letters, and nothing else.
pub proof fn law_lower_case_changes_only_capitals(text: Seq<char>, i: int)
    requires
        0 <= i < text.len(),
    ensures
        lower(text).len() == text.len(),
        'A' <= text[i] <= 'Z' ==> lower(text)[i] as u32 - 'a' as u32 == text[i] as u32 - 'A' as u32,
        !('A' <= text[i] <= 'Z') ==> lower(text)[i] == text[i],
{
}

/// A text comes before another one where it is a proper start of it, or where
/// its UTF-8 form is smaller at the first byte that differs.
pub proof fn law_texts_are_ordered_by_their_first_difference(a: Seq<char>, b: Seq<char>, at: int)
    requires
        0 <= at <= utf8(a).len(),
        at <= utf8(b).len(),
        forall|i: int| 0 <= i < at ==> utf8(a)[i] == utf8(b)[i],
    ensures
        at == utf8(a).len() && at < utf8(b).len() ==> relation(a, b) is Before && relation(b, a) is After,
        at < utf8(a).len() && at < utf8(b).len() && utf8(a)[at] < utf8(b)[at] ==> relation(a, b) is Before && relation(
            b,
            a,
        ) is After,
        at == utf8(a).len() && at == utf8(b).len() ==> relation(a, b) is Same,
{
    if at == utf8(a).len() && at == utf8(b).len() {
        assert(utf8(a) =~= utf8(b));
        lemma_utf8_injective(a, b);
    }
    if at < utf8(b).len() && (at == utf8(a).len() || utf8(a)[at] < utf8(b)[at]) {
        assert(smaller_at(utf8(a), utf8(b), at));
        lemma_bytes_less_irreflexive(utf8(a));
        if bytes_less(utf8(b), utf8(a)) {
            lemma_bytes_less_transitive(utf8(a), utf8(b), utf8(a));
        }
        assert(a != b);
    }
}

/// White space is what Unicode calls so; among the characters of ASCII these
/// are the space and the five characters from the tab to the carriage return.
pub proof fn law_ascii_white_space(c: char)
    requires
        (c as u32) < 128,
    ensures
        is_white(c) <==> c == ' ' || '\t' <= c <= '\r',
{
}

/// An optional text is there exactly where its value is, and is the same text.
pub proof fn law_optional_texts_are_kept(text: Option<String>, part: Option<&str>)
    ensures
        text_option(text) is Some <==> text is Some,
        text matches Some(value) ==> text_option(text) == Some(value@),
        str_option(part) is Some <==> part is Some,
        part matches Some(value) ==> str_option(part) == Some(value@),
{
}

} // verus!
