//! Byte buffers and text: the `bytes::BytesMut` buffer the codecs write into,
//! and the few std string operations the protocol code relies on.

use vstd::prelude::*;
use vstd::utf8::*;
use bytes::BytesMut;

verus! {

/// `bytes::BytesMut`, a growable byte buffer.
#[verifier::external_type_specification]
#[verifier::external_body]
pub struct ExBytesMut(BytesMut);

/// The bytes held by a `BytesMut`, in order.
pub uninterp spec fn buffer_bytes(b: BytesMut) -> Seq<u8>;

/// `BytesMut::from(&[u8])`: a buffer holding a copy of the bytes.
#[verifier::external_body]
pub(crate) fn buffer_from_slice(s: &[u8]) -> (b: BytesMut)
    ensures
        buffer_bytes(b) == s@,
{
    BytesMut::from(s)
}

/// `BytesMut` as a byte slice (its `Deref` to `[u8]`).
#[verifier::external_body]
pub(crate) fn buffer_as_slice(b: &BytesMut) -> (s: &[u8])
    ensures
        s@ == buffer_bytes(*b),
{
    &b[..]
}

/// `BytesMut::split_to`: the first `at` bytes leave the buffer and are
/// returned; the buffer keeps the rest. It panics when `at` exceeds the
/// length, which `requires` rules out.
#[verifier::external_body]
pub(crate) fn buffer_split_to(b: &mut BytesMut, at: usize) -> (front: BytesMut)
    requires
        at <= buffer_bytes(*old(b)).len(),
    ensures
        buffer_bytes(front) == buffer_bytes(*old(b)).take(at as int),
        buffer_bytes(*final(b)) == buffer_bytes(*old(b)).skip(at as int),
{
    b.split_to(at)
}

/// `std::str::from_utf8`: `Some` exactly when the bytes are valid UTF-8, and
/// then the string slice of the characters they encode.
#[verifier::external_body]
pub(crate) fn utf8_as_str<'a>(b: &'a [u8]) -> (r: Option<&'a str>)
    ensures
        r is Some <==> valid_utf8(b@),
        r matches Some(s) ==> s@ == decode_utf8(b@),
{
    std::str::from_utf8(b).ok()
}

/// Whether `c` has Unicode's White_Space property, what `char::is_whitespace`
/// tests: the 25 code points U+0009 to U+000D, U+0020, U+0085, U+00A0,
/// U+1680, U+2000 to U+200A, U+2028, U+2029, U+202F, U+205F and U+3000.
pub open spec fn white_space(c: char) -> bool {
    let n = c as u32;
    ||| 9 <= n <= 13
    ||| n == 0x20
    ||| n == 0x85
    ||| n == 0xA0
    ||| n == 0x1680
    ||| 0x2000 <= n <= 0x200A
    ||| n == 0x2028
    ||| n == 0x2029
    ||| n == 0x202F
    ||| n == 0x205F
    ||| n == 0x3000
}

/// `s` without its leading whitespace.
pub open spec fn trim_start_ws(s: Seq<char>) -> Seq<char>
    decreases s.len(),
{
    if s.len() > 0 && white_space(s[0]) {
        trim_start_ws(s.drop_first())
    } else {
        s
    }
}

/// `s` without its trailing whitespace.
pub open spec fn trim_end_ws(s: Seq<char>) -> Seq<char>
    decreases s.len(),
{
    if s.len() > 0 && white_space(s.last()) {
        trim_end_ws(s.drop_last())
    } else {
        s
    }
}

/// What `str::trim` leaves of a string: the string without its leading and
/// trailing whitespace.
pub open spec fn trimmed(s: Seq<char>) -> Seq<char> {
    trim_end_ws(trim_start_ws(s))
}

/// What trimming the start leaves starts with no whitespace.
proof fn lemma_trim_start_clean(s: Seq<char>)
    ensures
        trim_start_ws(s).len() > 0 ==> !white_space(trim_start_ws(s)[0]),
    decreases s.len(),
{
    if s.len() > 0 && white_space(s[0]) {
        lemma_trim_start_clean(s.drop_first());
    }
}

/// Trimming the end keeps a prefix, which ends with no whitespace.
proof fn lemma_trim_end_prefix(s: Seq<char>)
    ensures
        trim_end_ws(s).len() <= s.len(),
        trim_end_ws(s) == s.take(trim_end_ws(s).len() as int),
        trim_end_ws(s).len() > 0 ==> !white_space(trim_end_ws(s).last()),
    decreases s.len(),
{
    if s.len() > 0 && white_space(s.last()) {
        lemma_trim_end_prefix(s.drop_last());
        assert(s.drop_last().take(trim_end_ws(s).len() as int) =~= s.take(trim_end_ws(s).len() as int));
    } else {
        assert(s.take(s.len() as int) =~= s);
    }
}

/// Trimming twice is trimming once: a trimmed string starts and ends with
/// no whitespace, so `TopicFilter::new(s)` and `TopicFilter::new(s.trim())`
/// keep the same filter.
pub proof fn lemma_trim_twice(s: Seq<char>)
    ensures
        trimmed(trimmed(s)) == trimmed(s),
{
    let t = trim_start_ws(s);
    let r = trim_end_ws(t);
    lemma_trim_start_clean(s);
    lemma_trim_end_prefix(t);
    if r.len() > 0 {
        assert(r[0] == t[0]);
        assert(trim_start_ws(r) == r);
        assert(trim_end_ws(r) == r);
    } else {
        assert(trim_start_ws(r) == r);
        assert(trim_end_ws(r) == r);
    }
}

/// `str::trim`: the string without its leading and trailing whitespace,
/// whitespace being Unicode's White_Space property.
#[verifier::external_body]
pub(crate) fn trim_whitespace(s: &str) -> (r: &str)
    ensures
        r@ == trimmed(s@),
{
    s.trim()
}

/// A `String` holding exactly the given characters (`String: FromIterator<char>`).
#[verifier::external_body]
pub(crate) fn string_from_chars(v: &[char]) -> (s: String)
    ensures
        s@ == v@,
{
    v.iter().collect()
}

/// The characters of a string slice, in order.
pub fn chars_of(s: &str) -> (v: Vec<char>)
    ensures
        v@ == s@,
{
    let mut v: Vec<char> = Vec::new();
    for c in it: s.chars()
        invariant
            v@ == it.seq().take(it.index() as int),
            it.seq() == s@,
    {
        v.push(c);
    }
    v
}

/// Split a character sequence at every occurrence of `sep`, as `str::split`
/// does: `n` separators give `n + 1` pieces, empty pieces included.
pub open spec fn split_chars(s: Seq<char>, sep: char) -> Seq<Seq<char>>
    decreases s.len(),
{
    if s.len() == 0 {
        seq![Seq::<char>::empty()]
    } else {
        let prev = split_chars(s.drop_last(), sep);
        if s.last() == sep {
            prev.push(Seq::<char>::empty())
        } else {
            prev.update(prev.len() - 1, prev.last().push(s.last()))
        }
    }
}

/// Splitting always yields at least one piece.
pub proof fn lemma_split_chars_nonempty(s: Seq<char>, sep: char)
    ensures
        split_chars(s, sep).len() >= 1,
    decreases s.len(),
{
    if s.len() > 0 {
        lemma_split_chars_nonempty(s.drop_last(), sep);
    }
}

/// The character sequences held by a sequence of character vectors.
pub open spec fn char_vecs_view(v: Seq<Vec<char>>) -> Seq<Seq<char>> {
    v.map_values(|x: Vec<char>| x@)
}

/// Join pieces with `sep` between consecutive ones (the inverse of splitting).
pub open spec fn join_chars(parts: Seq<Seq<char>>, sep: char) -> Seq<char>
    decreases parts.len(),
{
    if parts.len() <= 1 {
        if parts.len() == 1 {
            parts[0]
        } else {
            Seq::empty()
        }
    } else {
        join_chars(parts.drop_last(), sep).push(sep) + parts.last()
    }
}

proof fn lemma_join_push_last(parts: Seq<Seq<char>>, sep: char, c: char)
    requires
        parts.len() >= 1,
    ensures
        join_chars(parts.update(parts.len() - 1, parts.last().push(c)), sep) == join_chars(parts, sep).push(c),
{
    let q = parts.update(parts.len() - 1, parts.last().push(c));
    if parts.len() > 1 {
        assert(q.drop_last() =~= parts.drop_last());
        assert(join_chars(q, sep) =~= join_chars(parts, sep).push(c));
    }
}

/// Joining the pieces of a split gives the split text back.
pub proof fn lemma_split_join(s: Seq<char>, sep: char)
    ensures
        join_chars(split_chars(s, sep), sep) == s,
    decreases s.len(),
{
    if s.len() > 0 {
        lemma_split_join(s.drop_last(), sep);
        lemma_split_chars_nonempty(s.drop_last(), sep);
        let prev = split_chars(s.drop_last(), sep);
        if s.last() == sep {
            let q = prev.push(Seq::<char>::empty());
            assert(q.drop_last() =~= prev);
            assert(join_chars(q, sep) =~= s);
        } else {
            lemma_join_push_last(prev, sep, s.last());
            assert(s =~= s.drop_last().push(s.last()));
        }
    }
}

/// Different strings have different pieces.
pub proof fn lemma_split_injective(a: Seq<char>, b: Seq<char>, sep: char)
    requires
        split_chars(a, sep) == split_chars(b, sep),
    ensures
        a == b,
{
    lemma_split_join(a, sep);
    lemma_split_join(b, sep);
}

/// The pieces of `s` between occurrences of `sep`.
pub fn split_chars_exec(s: &[char], sep: char) -> (parts: Vec<Vec<char>>)
    ensures
        char_vecs_view(parts@) == split_chars(s@, sep),
{
    let mut parts: Vec<Vec<char>> = Vec::new();
    let mut cur: Vec<char> = Vec::new();
    let mut i: usize = 0;
    assert(s@.take(0) =~= Seq::<char>::empty());
    while i < s.len()
        invariant
            i <= s.len(),
            char_vecs_view(parts@).push(cur@) == split_chars(s@.take(i as int), sep),
        decreases s.len() - i,
    {
        proof {
            lemma_split_chars_nonempty(s@.take(i as int), sep);
            assert(s@.take(i + 1).drop_last() =~= s@.take(i as int));
        }
        let c = s[i];
        let ghost before = char_vecs_view(parts@);
        if c == sep {
            let done = cur;
            parts.push(done);
            cur = Vec::new();
            assert(char_vecs_view(parts@) =~= before.push(done@));
            assert(char_vecs_view(parts@).push(cur@) =~= split_chars(s@.take(i + 1), sep));
        } else {
            cur.push(c);
            assert(char_vecs_view(parts@).push(cur@) =~= split_chars(s@.take(i + 1), sep));
        }
        i = i + 1;
    }
    assert(s@.take(s.len() as int) =~= s@);
    let ghost before = char_vecs_view(parts@);
    let last = cur;
    parts.push(last);
    assert(char_vecs_view(parts@) =~= before.push(last@));
    parts
}

/// Whether two character slices hold the same characters.
pub fn chars_eq(a: &[char], b: &[char]) -> (r: bool)
    ensures
        r == (a@ == b@),
{
    if a.len() != b.len() {
        return false;
    }
    let mut i: usize = 0;
    while i < a.len()
        invariant
            i <= a.len(),
            a.len() == b.len(),
            forall|j: int| 0 <= j < i ==> a@[j] == b@[j],
        decreases a.len() - i,
    {
        if a[i] != b[i] {
            return false;
        }
        i = i + 1;
    }
    assert(a@ =~= b@);
    true
}

/// Whether a character slice is exactly the one character `c`.
pub fn is_single_char(a: &[char], c: char) -> (r: bool)
    ensures
        r == (a@ == seq![c]),
{
    if a.len() == 1 && a[0] == c {
        assert(a@ =~= seq![c]);
        true
    } else {
        false
    }
}

/// Whether a character slice contains `c`.
pub fn contains_char(a: &[char], c: char) -> (r: bool)
    ensures
        r == a@.contains(c),
{
    let mut i: usize = 0;
    while i < a.len()
        invariant
            i <= a.len(),
            forall|j: int| 0 <= j < i ==> a@[j] != c,
        decreases a.len() - i,
    {
        if a[i] == c {
            assert(a@[i as int] == c);
            return true;
        }
        i = i + 1;
    }
    false
}

/// Whether two strings hold the same characters.
pub fn str_eq(a: &str, b: &str) -> (r: bool)
    ensures
        r == (a@ == b@),
{
    let ca = chars_of(a);
    let cb = chars_of(b);
    chars_eq(ca.as_slice(), cb.as_slice())
}

/// The lines of a text, as `str::lines` gives them: split at '\n', a '\r'
/// just before a '\n' removed, and no empty last line after a final '\n'.
pub open spec fn text_lines(s: Seq<char>) -> Seq<Seq<char>> {
    let pieces = split_chars(s, '\n');
    let kept = if pieces.last().len() == 0 { pieces.drop_last() } else { pieces };
    Seq::new(
        kept.len(),
        |i: int|
            if i < pieces.len() - 1 && kept[i].len() > 0 && kept[i].last() == '\r' {
                kept[i].drop_last()
            } else {
                kept[i]
            },
    )
}

/// The lines of a text (see `text_lines`), each as a character vector.
pub fn lines_exec(s: &str) -> (lines: Vec<Vec<char>>)
    ensures
        char_vecs_view(lines@) == text_lines(s@),
{
    let chars = chars_of(s);
    let pieces = split_chars_exec(chars.as_slice(), '\n');
    proof {
        lemma_split_chars_nonempty(s@, '\n');
    }
    let ghost pv = char_vecs_view(pieces@);
    let n = pieces.len();
    let kept = if pieces[n - 1].len() == 0 { n - 1 } else { n };
    let mut lines: Vec<Vec<char>> = Vec::new();
    let mut i: usize = 0;
    while i < kept
        invariant
            i <= kept <= n,
            n == pieces.len(),
            n >= 1,
            pv == char_vecs_view(pieces@),
            pv == split_chars(s@, '\n'),
            kept == (if pv.last().len() == 0 { n - 1 } else { n as int }),
            char_vecs_view(lines@) == text_lines(s@).take(i as int),
        decreases kept - i,
    {
        let piece = &pieces[i];
        let m = piece.len();
        let mut line: Vec<char> = Vec::new();
        let strip = i + 1 < n && m > 0 && piece[m - 1] == '\r';
        let upto = if strip { m - 1 } else { m };
        let mut j: usize = 0;
        while j < upto
            invariant
                j <= upto <= m,
                m == piece@.len(),
                line@ == piece@.take(j as int),
            decreases upto - j,
        {
            line.push(piece[j]);
            j = j + 1;
            assert(line@ =~= piece@.take(j as int));
        }
        let ghost before = char_vecs_view(lines@);
        let ghost lv = line@;
        lines.push(line);
        proof {
            assert(pv[i as int] == piece@);
            if strip {
                assert(lv =~= piece@.drop_last());
            } else {
                assert(lv =~= piece@);
            }
            assert(char_vecs_view(lines@) =~= before.push(lv));
            assert(text_lines(s@).take(i + 1) =~= text_lines(s@).take(i as int).push(lv));
        }
        i = i + 1;
    }
    assert(text_lines(s@).take(kept as int) =~= text_lines(s@));
    lines
}

/// The position of the first `c` in `s`, if any.
pub open spec fn find_char(s: Seq<char>, c: char) -> Option<nat>
    decreases s.len(),
{
    if s.len() == 0 {
        None
    } else if s[0] == c {
        Some(0)
    } else {
        match find_char(s.drop_first(), c) {
            Some(i) => Some(i + 1),
            None => None,
        }
    }
}

/// The position of the first `c` in `s`, if any.
pub fn find_char_exec(s: &[char], c: char) -> (r: Option<usize>)
    ensures
        match r {
            Some(i) => find_char(s@, c) == Some(i as nat) && i < s.len(),
            None => find_char(s@, c) is None,
        },
{
    let mut i: usize = 0;
    assert(s@.skip(0) =~= s@);
    while i < s.len()
        invariant
            i <= s.len(),
            forall|j: int| 0 <= j < i ==> s@[j] != c,
            find_char(s@, c) == (match find_char(s@.skip(i as int), c) {
                Some(k) => Some((k + i) as nat),
                None => None::<nat>,
            }),
        decreases s.len() - i,
    {
        assert(s@.skip(i as int).drop_first() =~= s@.skip(i + 1));
        if s[i] == c {
            return Some(i);
        }
        i = i + 1;
    }
    None
}

/// The pieces joined with `sep` between consecutive ones.
pub fn join_chars_exec(parts: &[Vec<char>], sep: char) -> (out: Vec<char>)
    requires
        parts.len() >= 1,
    ensures
        out@ == join_chars(char_vecs_view(parts@), sep),
{
    let ghost pv = char_vecs_view(parts@);
    let mut out: Vec<char> = Vec::new();
    append_chars(&mut out, parts[0].as_slice());
    assert(pv.take(1).len() == 1 && pv.take(1)[0] == parts@[0]@);
    assert(out@ =~= join_chars(pv.take(1), sep));
    let mut i: usize = 1;
    while i < parts.len()
        invariant
            1 <= i <= parts.len(),
            pv == char_vecs_view(parts@),
            out@ == join_chars(pv.take(i as int), sep),
        decreases parts.len() - i,
    {
        proof {
            assert(pv.take(i + 1).drop_last() =~= pv.take(i as int));
            assert(pv.take(i + 1).last() == parts@[i as int]@);
        }
        out.push(sep);
        append_chars(&mut out, parts[i].as_slice());
        i = i + 1;
        assert(out@ =~= join_chars(pv.take(i as int), sep));
    }
    assert(pv.take(i as int) =~= pv);
    out
}

/// Append the characters of `s`.
pub fn append_chars(v: &mut Vec<char>, s: &[char])
    ensures
        final(v)@ == old(v)@ + s@,
{
    v.extend_from_slice(s);
    assert(v@ =~= old(v)@ + s@);
}

/// The decimal digits of `n`, most significant first.
pub open spec fn spec_decimal(n: nat) -> Seq<char>
    decreases n,
{
    if n < 10 {
        seq![(('0' as u8) + n) as char]
    } else {
        spec_decimal(n / 10).push(((('0' as u8) + (n % 10)) as u8) as char)
    }
}

/// The decimal form of `n`.
pub fn decimal(n: u64) -> (s: String)
    ensures
        s@ == spec_decimal(n as nat),
{
    let mut digits: Vec<char> = Vec::new();
    let mut m = n;
    // Collect the digits least significant first, then reverse them.
    let mut rev: Vec<char> = Vec::new();
    loop
        invariant_except_break
            spec_decimal(n as nat) == spec_decimal(m as nat) + rev@.reverse(),
        ensures
            spec_decimal(n as nat) == rev@.reverse(),
        decreases m,
    {
        let d = (m % 10) as u8;
        let c = (('0' as u8) + d) as char;
        if m < 10 {
            let ghost before = rev@;
            rev.push(c);
            assert(rev@.reverse() =~= seq![c] + before.reverse());
            break;
        }
        let ghost before = rev@;
        rev.push(c);
        assert(spec_decimal(m as nat) == spec_decimal((m / 10) as nat).push(c));
        assert(rev@.reverse() =~= seq![c] + before.reverse());
        assert(spec_decimal((m / 10) as nat).push(c) + before.reverse() =~= spec_decimal((m / 10) as nat) + rev@.reverse());
        m = m / 10;
    }
    let mut i = rev.len();
    while i > 0
        invariant
            i <= rev.len(),
            digits@ == rev@.reverse().take(rev.len() - i),
        decreases i,
    {
        i = i - 1;
        digits.push(rev[i]);
        assert(digits@ =~= rev@.reverse().take(rev.len() - i));
    }
    assert(rev@.reverse().take(rev.len() as int) =~= rev@.reverse());
    string_from_chars(digits.as_slice())
}

} // verus!
