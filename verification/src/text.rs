//! Text and byte primitives: comparison, search, splitting, replacement and the
//! rendering of numbers, each stated over the sequence of characters or bytes.
use vstd::prelude::*;
use vstd::string::*;
use vstd::utf8::*;

verus! {

/// `String::push` of std: appends one character at the end of the text.
pub assume_specification[ String::push ](s: &mut String, c: char)
    ensures
        final(s)@ == old(s)@.push(c),
;

/// The text that `bytes` encode, through `String::from_utf8` of std. The result is
/// `Some` exactly where the bytes are valid UTF-8, and then holds their decoding.
#[verifier::external_body]
pub(crate) fn utf8_text(bytes: &[u8]) -> (text: Option<String>)
    ensures
        text is Some <==> valid_utf8(bytes@),
        text matches Some(t) ==> t@ == decode_utf8(bytes@),
{
    String::from_utf8(bytes.to_vec()).ok()
}

/// The characters of a text, in order.
pub fn chars_of(s: &str) -> (chars: Vec<char>)
    ensures
        chars@ == s@,
{
    let mut chars: Vec<char> = Vec::new();
    for c in it: s.chars()
        invariant
            chars@ == it.seq().take(it.index() as int),
            it.seq() == s@,
    {
        chars.push(c);
    }
    chars
}

/// The text that a run of characters spells.
pub fn text_of(chars: &[char]) -> (text: String)
    ensures
        text@ == chars@,
{
    let text = text_between(chars, 0, chars.len());
    assert(chars@.subrange(0, chars@.len() as int) =~= chars@);
    text
}

/// Whether two byte strings are equal.
pub fn same_bytes(a: &[u8], b: &[u8]) -> (same: bool)
    ensures
        same == (a@ == b@),
{
    if a.len() != b.len() {
        return false;
    }
    let mut i: usize = 0;
    while i < a.len()
        invariant
            i <= a@.len(),
            a@.len() == b@.len(),
            forall|j: int| 0 <= j < i ==> a@[j] == b@[j],
        decreases a@.len() - i,
    {
        if a[i] != b[i] {
            return false;
        }
        i += 1;
    }
    assert(a@ =~= b@);
    true
}

/// Whether two texts are equal.
pub fn same_text(a: &str, b: &str) -> (same: bool)
    ensures
        same == (a@ == b@),
{
    proof {
        encode_utf8_decode_utf8(a@);
        encode_utf8_decode_utf8(b@);
    }
    same_bytes(a.as_bytes(), b.as_bytes())
}

/// Whether `needle` stands in `hay` at position `i`.
pub open spec fn stands_at<T>(hay: Seq<T>, needle: Seq<T>, i: int) -> bool {
    0 <= i && i + needle.len() <= hay.len() && hay.subrange(i, i + needle.len()) == needle
}

/// Whether `needle` stands anywhere in `hay`.
pub open spec fn occurs_in<T>(needle: Seq<T>, hay: Seq<T>) -> bool {
    exists|i: int| stands_at(hay, needle, i)
}

/// Whether `hay` ends with `needle`.
pub open spec fn is_suffix<T>(needle: Seq<T>, hay: Seq<T>) -> bool {
    stands_at(hay, needle, hay.len() - needle.len())
}

/// Tests whether `needle` stands in `hay` at position `i`.
pub fn found_at(hay: &[char], needle: &[char], i: usize) -> (found: bool)
    ensures
        found == stands_at(hay@, needle@, i as int),
{
    if needle.len() > hay.len() || i > hay.len() - needle.len() {
        return false;
    }
    let mut k: usize = 0;
    while k < needle.len()
        invariant
            k <= needle@.len(),
            i + needle@.len() <= hay@.len() <= usize::MAX,
            forall|j: int| 0 <= j < k ==> hay@[i + j] == needle@[j],
        decreases needle@.len() - k,
    {
        if hay[i + k] != needle[k] {
            assert(hay@.subrange(i as int, i + needle@.len())[k as int] != needle@[k as int]);
            return false;
        }
        k += 1;
    }
    assert(hay@.subrange(i as int, i + needle@.len()) =~= needle@);
    true
}

/// Where `needle` first stands in `hay`, looking from `from` on.
pub open spec fn first_stand<T>(hay: Seq<T>, needle: Seq<T>, from: int) -> Option<int>
    decreases hay.len() - from + 1,
{
    if from < 0 || from > hay.len() {
        None
    } else if stands_at(hay, needle, from) {
        Some(from)
    } else {
        first_stand(hay, needle, from + 1)
    }
}

/// Finds where `needle` first stands in `hay`.
pub fn find_text(hay: &[char], needle: &str) -> (position: Option<usize>)
    ensures
        position is Some <==> first_stand(hay@, needle@, 0) is Some,
        position matches Some(i) ==> first_stand(hay@, needle@, 0) == Some(i as int) && stands_at(
            hay@,
            needle@,
            i as int,
        ),
{
    let wanted = chars_of(needle);
    let length: usize = hay.len();
    let mut i: usize = 0;
    while i < length
        invariant
            i <= length == hay@.len(),
            wanted@ == needle@,
            first_stand(hay@, needle@, 0) == first_stand(hay@, needle@, i as int),
        decreases length - i,
    {
        if found_at(hay, wanted.as_slice(), i) {
            return Some(i);
        }
        i += 1;
    }
    if found_at(hay, wanted.as_slice(), i) {
        return Some(i);
    }
    assert(first_stand(hay@, needle@, i + 1) is None);
    None
}

/// Tests whether `needle` stands anywhere in `hay`.
pub fn contains(hay: &[char], needle: &str) -> (found: bool)
    ensures
        found == occurs_in(needle@, hay@),
{
    let wanted = chars_of(needle);
    let mut i: usize = 0;
    while i < hay.len()
        invariant
            i <= hay@.len(),
            wanted@ == needle@,
            forall|j: int| 0 <= j < i ==> !stands_at(hay@, needle@, j),
        decreases hay@.len() - i,
    {
        if found_at(hay, wanted.as_slice(), i) {
            return true;
        }
        i += 1;
    }
    let found = found_at(hay, wanted.as_slice(), i);
    proof {
        if !found && occurs_in(needle@, hay@) {
            let j = choose|j: int| stands_at(hay@, needle@, j);
            assert(j < i || j == i);
        }
    }
    found
}

/// Tests whether `hay` ends with `needle`.
pub fn ends_with(hay: &[char], needle: &str) -> (found: bool)
    ensures
        found == is_suffix(needle@, hay@),
{
    let wanted = chars_of(needle);
    if wanted.len() > hay.len() {
        return false;
    }
    found_at(hay, wanted.as_slice(), hay.len() - wanted.len())
}

/// The pieces of `s` between the separators, the empty ones included.
pub open spec fn split_at_each(s: Seq<char>, separator: char) -> Seq<Seq<char>>
    decreases s.len(),
{
    if s.len() == 0 {
        seq![Seq::empty()]
    } else {
        let before = split_at_each(s.drop_last(), separator);
        if s.last() == separator {
            before.push(Seq::empty())
        } else {
            before.drop_last().push(before.last().push(s.last()))
        }
    }
}

/// The pieces of `s` between the separators that hold at least one character.
pub open spec fn segments(s: Seq<char>, separator: char) -> Seq<Seq<char>> {
    split_at_each(s, separator).filter(|piece: Seq<char>| piece.len() > 0)
}

/// What each of the texts spells.
pub open spec fn spelled(parts: Seq<Vec<char>>) -> Seq<Seq<char>> {
    Seq::new(parts.len(), |i: int| parts[i]@)
}

/// Splits a text at each separator and drops the empty pieces.
pub fn split_segments(s: &[char], separator: char) -> (parts: Vec<Vec<char>>)
    ensures
        spelled(parts@) == segments(s@, separator),
{
    let ghost full = |piece: Seq<char>| piece.len() > 0;
    let mut parts: Vec<Vec<char>> = Vec::new();
    let mut piece: Vec<char> = Vec::new();
    let mut i: usize = 0;
    proof {
        reveal_with_fuel(Seq::filter, 2);
        assert(split_at_each(s@.take(0), separator).drop_last() =~= Seq::empty());
        assert(spelled(parts@) =~= Seq::empty());
    }
    while i < s.len()
        invariant
            i <= s@.len(),
            full == (|piece: Seq<char>| piece.len() > 0),
            split_at_each(s@.take(i as int), separator).len() > 0,
            piece@ == split_at_each(s@.take(i as int), separator).last(),
            spelled(parts@) == split_at_each(s@.take(i as int), separator).drop_last().filter(full),
        decreases s@.len() - i,
    {
        let ghost before = split_at_each(s@.take(i as int), separator);
        let ghost after = split_at_each(s@.take(i + 1), separator);
        assert(s@.take(i + 1).drop_last() =~= s@.take(i as int));
        if s[i] == separator {
            assert(after.drop_last() =~= before);
            proof {
                reveal(Seq::filter);
                assert(before.drop_last().push(before.last()) =~= before);
            }
            if piece.len() > 0 {
                let ghost earlier = parts@;
                let finished = piece;
                parts.push(finished);
                piece = Vec::new();
                assert(spelled(parts@) =~= spelled(earlier).push(before.last()));
            }
            assert(piece@ =~= Seq::empty());
        } else {
            assert(after.drop_last() =~= before.drop_last());
            piece.push(s[i]);
        }
        i += 1;
    }
    assert(s@.take(s@.len() as int) =~= s@);
    let ghost whole = split_at_each(s@, separator);
    proof {
        reveal(Seq::filter);
        assert(whole.drop_last().push(whole.last()) =~= whole);
    }
    if piece.len() > 0 {
        let ghost earlier = parts@;
        parts.push(piece);
        assert(spelled(parts@) =~= spelled(earlier).push(whole.last()));
    }
    parts
}

/// The character of a decimal digit.
pub open spec fn digit(d: nat) -> char {
    (0x30 + d) as char
}

/// A number in decimal, without leading zeros.
pub open spec fn decimal(n: nat) -> Seq<char>
    decreases n,
{
    if n < 10 {
        seq![digit(n)]
    } else {
        decimal(n / 10).push(digit(n % 10))
    }
}

/// Renders a number in decimal.
pub fn decimal_text(n: usize) -> (text: String)
    ensures
        text@ == decimal(n as nat),
    decreases n,
{
    let last = (0x30u8 + (n % 10) as u8) as char;
    let mut text = if n < 10 {
        String::new()
    } else {
        decimal_text(n / 10)
    };
    text.push(last);
    assert(text@ =~= decimal(n as nat));
    text
}

/// The character of a hexadecimal digit, in lower case.
pub open spec fn hex_digit(d: nat) -> char {
    if d < 10 {
        (0x30 + d) as char
    } else {
        (0x57 + d) as char
    }
}

/// Bytes as pairs of hexadecimal digits, in lower case.
pub open spec fn hex(bytes: Seq<u8>) -> Seq<char>
    decreases bytes.len(),
{
    if bytes.len() == 0 {
        Seq::empty()
    } else {
        hex(bytes.drop_last()).push(hex_digit(bytes.last() as nat / 16)).push(
            hex_digit(bytes.last() as nat % 16),
        )
    }
}

fn hex_char(d: u8) -> (c: char)
    requires
        d < 16,
    ensures
        c == hex_digit(d as nat),
{
    if d < 10 {
        (0x30 + d) as char
    } else {
        (0x57 + d) as char
    }
}

/// Renders bytes as pairs of hexadecimal digits.
pub fn hex_text(bytes: &[u8]) -> (text: String)
    ensures
        text@ == hex(bytes@),
{
    let mut text = String::new();
    let mut i: usize = 0;
    while i < bytes.len()
        invariant
            i <= bytes@.len(),
            text@ == hex(bytes@.take(i as int)),
        decreases bytes@.len() - i,
    {
        assert(bytes@.take(i + 1).drop_last() =~= bytes@.take(i as int));
        text.push(hex_char(bytes[i] / 16));
        text.push(hex_char(bytes[i] % 16));
        i += 1;
    }
    assert(bytes@.take(bytes@.len() as int) =~= bytes@);
    text
}

/// Whether a character has the Unicode property `White_Space`.
pub open spec fn is_white_space(c: char) -> bool {
    let n = c as u32;
    ||| 0x09 <= n <= 0x0d
    ||| n == 0x20
    ||| n == 0x85
    ||| n == 0xa0
    ||| n == 0x1680
    ||| 0x2000 <= n <= 0x200a
    ||| n == 0x2028
    ||| n == 0x2029
    ||| n == 0x202f
    ||| n == 0x205f
    ||| n == 0x3000
}

/// Whether a text holds nothing but white space.
pub open spec fn is_blank(s: Seq<char>) -> bool {
    forall|i: int| 0 <= i < s.len() ==> is_white_space(#[trigger] s[i])
}

/// Tests whether a text holds nothing but white space.
pub fn blank(s: &str) -> (result: bool)
    ensures
        result == is_blank(s@),
{
    let chars = chars_of(s);
    let mut i: usize = 0;
    while i < chars.len()
        invariant
            i <= chars@.len(),
            chars@ == s@,
            forall|j: int| 0 <= j < i ==> is_white_space(#[trigger] s@[j]),
        decreases chars@.len() - i,
    {
        let n: u32 = chars[i] as u32;
        let white = (0x09 <= n && n <= 0x0d) || n == 0x20 || n == 0x85 || n == 0xa0 || n == 0x1680 || (
        0x2000 <= n && n <= 0x200a) || n == 0x2028 || n == 0x2029 || n == 0x202f || n == 0x205f || n
            == 0x3000;
        if !white {
            assert(!is_white_space(s@[i as int]));
            return false;
        }
        i += 1;
    }
    true
}

/// The position of the first `wanted` at or behind `from`, or the end where there is none.
pub open spec fn first_of<T>(items: Seq<T>, wanted: T, from: int) -> int
    decreases items.len() - from,
{
    if from < 0 || from >= items.len() {
        items.len() as int
    } else if items[from] == wanted {
        from
    } else {
        first_of(items, wanted, from + 1)
    }
}

/// What `first_of` finds is the first: it holds the wanted item unless it is the end, and
/// nothing before it does.
pub proof fn lemma_first_of<T>(items: Seq<T>, wanted: T, from: int)
    requires
        0 <= from <= items.len(),
    ensures
        from <= first_of(items, wanted, from) <= items.len(),
        first_of(items, wanted, from) < items.len() ==> items[first_of(items, wanted, from)]
            == wanted,
        forall|j: int| from <= j < first_of(items, wanted, from) ==> items[j] != wanted,
    decreases items.len() - from,
{
    if from < items.len() && items[from] != wanted {
        lemma_first_of(items, wanted, from + 1);
    }
}

/// The first item in a stretch without the wanted one, and the wanted one behind it, is
/// what `first_of` finds.
pub proof fn lemma_first_of_unique<T>(items: Seq<T>, wanted: T, from: int, position: int)
    requires
        0 <= from <= position <= items.len(),
        forall|j: int| from <= j < position ==> items[j] != wanted,
        position < items.len() ==> items[position] == wanted,
    ensures
        first_of(items, wanted, from) == position,
{
    lemma_first_of(items, wanted, from);
}

/// Finds the first `byte` at or behind `from`.
pub fn find_byte(bytes: &[u8], byte: u8, from: usize) -> (position: usize)
    requires
        from <= bytes@.len(),
    ensures
        position == first_of(bytes@, byte, from as int),
        from <= position <= bytes@.len(),
{
    let mut i: usize = from;
    while i < bytes.len() && bytes[i] != byte
        invariant
            from <= i <= bytes@.len(),
            first_of(bytes@, byte, i as int) == first_of(bytes@, byte, from as int),
        decreases bytes@.len() - i,
    {
        i += 1;
    }
    i
}

/// Finds the first `c` at or behind `from`.
pub fn find_char(chars: &[char], c: char, from: usize) -> (position: usize)
    requires
        from <= chars@.len(),
    ensures
        position == first_of(chars@, c, from as int),
        from <= position <= chars@.len(),
{
    let mut i: usize = from;
    while i < chars.len() && chars[i] != c
        invariant
            from <= i <= chars@.len(),
            first_of(chars@, c, i as int) == first_of(chars@, c, from as int),
        decreases chars@.len() - i,
    {
        i += 1;
    }
    i
}

/// The text of the characters from `from` up to `to`.
pub fn text_between(chars: &[char], from: usize, to: usize) -> (text: String)
    requires
        from <= to <= chars@.len(),
    ensures
        text@ == chars@.subrange(from as int, to as int),
{
    let mut text = String::new();
    let mut i: usize = from;
    while i < to
        invariant
            from <= i <= to <= chars@.len(),
            text@ == chars@.subrange(from as int, i as int),
        decreases to - i,
    {
        text.push(chars[i]);
        i += 1;
        assert(text@ =~= chars@.subrange(from as int, i as int));
    }
    text
}

/// A copy of the bytes from `from` up to `to`.
pub fn copy_range(bytes: &[u8], from: usize, to: usize) -> (copy: Vec<u8>)
    requires
        from <= to <= bytes@.len(),
    ensures
        copy@ == bytes@.subrange(from as int, to as int),
{
    let mut copy: Vec<u8> = Vec::new();
    push_range(&mut copy, bytes, from, to);
    assert(copy@ =~= bytes@.subrange(from as int, to as int));
    copy
}

/// Appends the bytes from `from` up to `to`.
pub fn push_range(target: &mut Vec<u8>, bytes: &[u8], from: usize, to: usize)
    requires
        from <= to <= bytes@.len(),
    ensures
        final(target)@ == old(target)@ + bytes@.subrange(from as int, to as int),
{
    let mut i: usize = from;
    assert(target@ =~= old(target)@ + bytes@.subrange(from as int, from as int));
    while i < to
        invariant
            from <= i <= to <= bytes@.len(),
            target@ == old(target)@ + bytes@.subrange(from as int, i as int),
        decreases to - i,
    {
        target.push(bytes[i]);
        i += 1;
        assert(target@ =~= old(target)@ + bytes@.subrange(from as int, i as int));
    }
}

/// The encoding of a text without line breaks has no line break byte.
pub proof fn lemma_encoded_line(line: Seq<char>)
    requires
        !line.contains('\n'),
    ensures
        !encode_utf8(line).contains(0x0au8),
    decreases line.len(),
{
    if line.len() > 0 {
        let c = line[0] as u32;
        let rest = line.drop_first();
        assert(line.contains(line[0]));
        char_u32_cast(line[0], c);
        char_is_scalar(line[0]);
        assert(c <= 0x7f && c != 0x0a ==> (c & 0x7f) as u8 != 0x0a) by (bit_vector);
        assert(forall|x: u8| #[trigger] (0xC0u8 | x) != 0x0a) by (bit_vector);
        assert(forall|x: u8| #[trigger] (0xE0u8 | x) != 0x0a) by (bit_vector);
        assert(forall|x: u8| #[trigger] (0xF0u8 | x) != 0x0a) by (bit_vector);
        assert(forall|x: u8| #[trigger] (0x80u8 | x) != 0x0a) by (bit_vector);
        let head = encode_scalar(c);
        assert forall|j: int| 0 <= j < head.len() implies head[j] != 0x0a by {}
        assert(!rest.contains('\n')) by {
            if rest.contains('\n') {
                let j = choose|j: int| 0 <= j < rest.len() && rest[j] == '\n';
                assert(line[j + 1] == '\n');
            }
        }
        lemma_encoded_line(rest);
        let tail = encode_utf8(rest);
        assert forall|j: int| 0 <= j < (head + tail).len() implies (head + tail)[j] != 0x0a by {
            if j >= head.len() {
                assert(tail.contains(tail[j - head.len()]));
            }
        }
    }
}

/// A piece without separators, and a separator behind it, come off the front of a split.
proof fn lemma_split_head(head: Seq<char>, tail: Seq<char>, separator: char)
    requires
        !head.contains(separator),
    ensures
        split_at_each(head, separator) == seq![head],
        split_at_each(head + seq![separator] + tail, separator) == seq![head] + split_at_each(
            tail,
            separator,
        ),
    decreases head.len() + tail.len(),
{
    let whole = head + seq![separator] + tail;
    if head.len() > 0 {
        let shorter = head.drop_last();
        assert(!shorter.contains(separator)) by {
            if shorter.contains(separator) {
                let j = choose|j: int| 0 <= j < shorter.len() && shorter[j] == separator;
                assert(head[j] == separator);
            }
        }
        lemma_split_head(shorter, Seq::empty(), separator);
        assert(head.last() != separator);
        assert(shorter.push(head.last()) =~= head);
        assert(split_at_each(head, separator) =~= seq![head]);
    } else {
        assert(head =~= Seq::empty());
        assert(split_at_each(head, separator) =~= seq![head]);
    }
    if tail.len() == 0 {
        assert(whole.drop_last() =~= head);
        assert(split_at_each(tail, separator) =~= seq![Seq::<char>::empty()]);
        assert(split_at_each(whole, separator) =~= seq![head] + split_at_each(tail, separator));
    } else {
        let less = tail.drop_last();
        lemma_split_head(head, less, separator);
        lemma_split_nonempty(less, separator);
        assert(whole.drop_last() =~= head + seq![separator] + less);
        assert(whole.last() == tail.last());
        assert(split_at_each(whole, separator) =~= seq![head] + split_at_each(tail, separator));
    }
}

proof fn lemma_split_nonempty(s: Seq<char>, separator: char)
    ensures
        split_at_each(s, separator).len() > 0,
    decreases s.len(),
{
    if s.len() > 0 {
        lemma_split_nonempty(s.drop_last(), separator);
    }
}

/// A text without separators is its only segment.
pub proof fn lemma_segments_single(s: Seq<char>, separator: char)
    requires
        s.len() > 0,
        !s.contains(separator),
    ensures
        segments(s, separator) == seq![s],
{
    reveal(Seq::filter);
    lemma_split_head(s, Seq::empty(), separator);
    let keep = |piece: Seq<char>| piece.len() > 0;
    assert(seq![s].drop_last() =~= Seq::<Seq<char>>::empty());
    assert(Seq::<Seq<char>>::empty().filter(keep) =~= Seq::empty());
    assert(seq![s].filter(keep) =~= seq![s]);
}

/// What stands before the first separator is the first segment, unless it is empty.
pub proof fn lemma_segments_head(head: Seq<char>, tail: Seq<char>, separator: char)
    requires
        !head.contains(separator),
    ensures
        segments(head + seq![separator] + tail, separator) == if head.len() > 0 {
            seq![head] + segments(tail, separator)
        } else {
            segments(tail, separator)
        },
{
    reveal(Seq::filter);
    lemma_split_head(head, tail, separator);
    let keep = |piece: Seq<char>| piece.len() > 0;
    let pieces = split_at_each(tail, separator);
    Seq::filter_distributes_over_add(seq![head], pieces, keep);
    assert(seq![head].drop_last() =~= Seq::<Seq<char>>::empty());
    assert(Seq::<Seq<char>>::empty().filter(keep) =~= Seq::empty());
    if head.len() > 0 {
        assert(seq![head].filter(keep) =~= seq![head]);
    } else {
        assert(seq![head].filter(keep) =~= Seq::empty());
        assert(Seq::<Seq<char>>::empty() + pieces.filter(keep) =~= pieces.filter(keep));
    }
}

/// Where the first segment at or behind `from` starts: at the first character that is no
/// separator, or at the end.
pub open spec fn segment_start(s: Seq<char>, separator: char, from: int) -> int
    decreases s.len() - from,
{
    if 0 <= from < s.len() && s[from] == separator {
        segment_start(s, separator, from + 1)
    } else {
        from
    }
}

/// Finds where the first segment at or behind `from` starts.
pub fn find_segment(s: &[char], separator: char, from: usize) -> (start: usize)
    requires
        from <= s@.len(),
    ensures
        start == segment_start(s@, separator, from as int),
        from <= start <= s@.len(),
{
    let mut start: usize = from;
    while start < s.len() && s[start] == separator
        invariant
            from <= start <= s@.len(),
            segment_start(s@, separator, start as int) == segment_start(
                s@,
                separator,
                from as int,
            ),
        decreases s@.len() - start,
    {
        start += 1;
    }
    start
}

/// The first segment behind a position stands where it starts, up to the next separator,
/// and the other segments stand behind it.
pub proof fn lemma_segment_at(s: Seq<char>, separator: char, from: int)
    requires
        0 <= from <= s.len(),
        segments(s.skip(from), separator).len() > 0,
    ensures
        ({
            let start = segment_start(s, separator, from);
            let end = first_of(s, separator, start);
            &&& from <= start < end <= s.len()
            &&& segments(s.skip(from), separator) == seq![s.subrange(start, end)] + segments(
                s.skip(end),
                separator,
            )
        }),
    decreases s.len() - from,
{
    let rest = s.skip(from);
    let none = Seq::<char>::empty();
    if rest.len() == 0 {
        lemma_no_segments(separator);
        assert(rest =~= none);
    } else if s[from] == separator {
        assert(rest =~= none + seq![separator] + s.skip(from + 1));
        lemma_segments_head(none, s.skip(from + 1), separator);
        lemma_segment_at(s, separator, from + 1);
    } else {
        let end = first_of(s, separator, from);
        lemma_first_of(s, separator, from);
        let head = s.subrange(from, end);
        assert(!head.contains(separator));
        if end == s.len() {
            assert(rest =~= head);
            assert(s.skip(end) =~= none);
            lemma_segments_single(head, separator);
            lemma_no_segments(separator);
            assert(seq![head] + Seq::<Seq<char>>::empty() =~= seq![head]);
        } else {
            assert(rest =~= head + seq![separator] + s.skip(end + 1));
            lemma_segments_head(head, s.skip(end + 1), separator);
            assert(s.skip(end) =~= none + seq![separator] + s.skip(end + 1));
            lemma_segments_head(none, s.skip(end + 1), separator);
        }
    }
}

/// The empty text has no segments.
proof fn lemma_no_segments(separator: char)
    ensures
        segments(Seq::empty(), separator) == Seq::<Seq<char>>::empty(),
{
    reveal(Seq::filter);
    let keep = |piece: Seq<char>| piece.len() > 0;
    let pieces = split_at_each(Seq::empty(), separator);
    assert(pieces.drop_last() =~= Seq::<Seq<char>>::empty());
    assert(Seq::<Seq<char>>::empty().filter(keep) =~= Seq::empty());
}

/// Whether a text holds another one somewhere.
pub open spec fn has_part(text: Seq<char>, part: Seq<char>) -> bool {
    exists|before: Seq<char>, behind: Seq<char>| text == #[trigger] (before + part + behind)
}

/// A text holds another one exactly where that one occurs in it.
pub proof fn lemma_has_part(text: Seq<char>, part: Seq<char>)
    ensures
        has_part(text, part) <==> occurs_in(part, text),
{
    if has_part(text, part) {
        let (before, behind) = choose|before: Seq<char>, behind: Seq<char>|
            text == #[trigger] (before + part + behind);
        let i = before.len() as int;
        assert(text.subrange(i, i + part.len()) =~= part);
        assert(stands_at(text, part, i));
    }
    if occurs_in(part, text) {
        let i = choose|i: int| stands_at(text, part, i);
        assert(text =~= text.take(i) + part + text.skip(i + part.len())) by {
            let found = text.subrange(i, i + part.len());
            assert forall|j: int| i <= j < i + part.len() implies text[j] == part[j - i] by {
                assert(found[j - i] == text[j]);
            }
        }
    }
}

/// One more digit multiplies a number by ten and adds to it; a number below ten is one
/// digit.
pub proof fn law_decimal_digits(n: nat, d: nat)
    requires
        d < 10,
    ensures
        decimal(d) == seq![(48 + d) as char],
        n > 0 ==> decimal(10 * n + d) == decimal(n) + seq![(48 + d) as char],
{
    if n > 0 {
        assert((10 * n + d) / 10 == n);
        assert((10 * n + d) % 10 == d);
        assert(decimal(10 * n + d) =~= decimal(n) + seq![(48 + d) as char]);
    }
}

/// Bytes are shown one after the other, each as the two digits that make up its value.
pub proof fn law_hex_digits(before: Seq<u8>, high: u8, low: u8, behind: Seq<u8>)
    requires
        high < 16,
        low < 16,
    ensures
        ({
            let byte = (16 * high + low) as u8;
            let digits = "0123456789abcdef"@;
            hex(before + seq![byte] + behind) == hex(before) + seq![
                digits[high as int],
                digits[low as int],
            ] + hex(behind)
        }),
        hex(Seq::empty()) == Seq::<char>::empty(),
    decreases behind.len(),
{
    reveal_strlit("0123456789abcdef");
    let byte = (16 * high + low) as u8;
    let whole = before + seq![byte] + behind;
    if behind.len() == 0 {
        assert(whole.drop_last() =~= before);
        assert(byte as nat / 16 == high as nat && byte as nat % 16 == low as nat);
        assert(hex_digit(high as nat) == "0123456789abcdef"@[high as int]);
        assert(hex_digit(low as nat) == "0123456789abcdef"@[low as int]);
        assert(hex(whole) =~= hex(before) + seq![
            "0123456789abcdef"@[high as int],
            "0123456789abcdef"@[low as int],
        ] + hex(behind));
    } else {
        law_hex_digits(before, high, low, behind.drop_last());
        assert(whole.drop_last() =~= before + seq![byte] + behind.drop_last());
        assert(hex(whole) =~= hex(before) + seq![
            "0123456789abcdef"@[high as int],
            "0123456789abcdef"@[low as int],
        ] + hex(behind));
    }
}

/// Separators in front of a text make no segments.
pub proof fn lemma_segments_run(run: Seq<char>, tail: Seq<char>, separator: char)
    requires
        forall|i: int| 0 <= i < run.len() ==> #[trigger] run[i] == separator,
    ensures
        segments(run + tail, separator) == segments(tail, separator),
    decreases run.len(),
{
    if run.len() == 0 {
        assert(run + tail =~= tail);
    } else {
        let rest = run.skip(1);
        assert forall|i: int| 0 <= i < rest.len() implies #[trigger] rest[i] == separator by {
            assert(run[i + 1] == separator);
        }
        lemma_segments_run(rest, tail, separator);
        let none = Seq::<char>::empty();
        assert(run[0] == separator);
        assert(run + tail =~= none + seq![separator] + (rest + tail));
        lemma_segments_head(none, rest + tail, separator);
    }
}

/// A piece without separators that ends the text, or has a separator behind it, is the
/// first segment, unless it is empty.
pub proof fn lemma_segments_first(piece: Seq<char>, tail: Seq<char>, separator: char)
    requires
        !piece.contains(separator),
        tail.len() > 0 ==> tail[0] == separator,
    ensures
        segments(piece + tail, separator) == if piece.len() > 0 {
            seq![piece] + segments(tail, separator)
        } else {
            segments(tail, separator)
        },
{
    let none = Seq::<char>::empty();
    if tail.len() == 0 {
        assert(tail =~= none);
        assert(piece + tail =~= piece);
        lemma_no_segments(separator);
        if piece.len() > 0 {
            lemma_segments_single(piece, separator);
            assert(seq![piece] + Seq::<Seq<char>>::empty() =~= seq![piece]);
        } else {
            assert(piece =~= none);
        }
    } else {
        assert(piece + tail =~= piece + seq![separator] + tail.skip(1));
        lemma_segments_head(piece, tail.skip(1), separator);
        assert(tail =~= none + seq![separator] + tail.skip(1));
        lemma_segments_head(none, tail.skip(1), separator);
    }
}

/// A segment starts at the first character that is no separator.
pub proof fn lemma_segment_start(s: Seq<char>, separator: char, from: int, start: int)
    requires
        0 <= from <= start < s.len(),
        forall|j: int| from <= j < start ==> #[trigger] s[j] == separator,
        s[start] != separator,
    ensures
        segment_start(s, separator, from) == start,
    decreases start - from,
{
    if from < start {
        assert(s[from] == separator);
        lemma_segment_start(s, separator, from + 1, start);
    }
}

} // verus!
