//! The `sentry_key` component that authentication headers and query strings carry.
use regex::Regex;
use vstd::prelude::*;
use vstd::string::*;

use crate::dsn::Dsn;
use crate::text::{chars_of, find_text, first_stand, stands_at, text_between};

verus! {

/// What stands in front of a key.
pub open spec fn key_marker() -> Seq<char> {
    "sentry_key="@
}

/// Whether a character may stand in a key that is replaced.
pub open spec fn is_key_char(c: char) -> bool {
    'a' <= c <= 'f' || '0' <= c <= '9'
}

/// Whether a marker stands at position `i` with at least one key character behind it.
pub open spec fn is_key_at(text: Seq<char>, i: int) -> bool {
    let key = i + key_marker().len();
    stands_at(text, key_marker(), i) && key < text.len() && is_key_char(text[key])
}

/// Where the first marked key at or behind `from` starts.
pub open spec fn key_start(text: Seq<char>, from: int) -> Option<int>
    decreases text.len() - from,
{
    if from < 0 || from >= text.len() {
        None
    } else if is_key_at(text, from) {
        Some(from)
    } else {
        key_start(text, from + 1)
    }
}

/// Where the run of key characters from `from` on ends.
pub open spec fn key_end(text: Seq<char>, from: int) -> int
    decreases text.len() - from,
{
    if 0 <= from < text.len() && is_key_char(text[from]) {
        key_end(text, from + 1)
    } else {
        from
    }
}

/// The replacement text that `Regex::replace` makes of a template with `$` references for
/// a match of the key pattern.
pub uninterp spec fn template_expanded(template: Seq<char>, matched: Seq<char>) -> Seq<char>;

/// The replacement text for a match: the template itself, unless it holds references.
pub open spec fn expansion(template: Seq<char>, matched: Seq<char>) -> Seq<char> {
    if template.contains('$') {
        template_expanded(template, matched)
    } else {
        template
    }
}

/// The marked key that starts at `start`, marker included.
pub open spec fn marked_key(text: Seq<char>, start: int) -> Seq<char> {
    text.subrange(start, key_end(text, start + key_marker().len()))
}

/// A text with the marked key that starts at `start`, marker included, replaced.
pub open spec fn splice(text: Seq<char>, start: int, replacement: Seq<char>) -> Seq<char> {
    text.take(start) + replacement + text.skip(start + marked_key(text, start).len())
}

/// `Regex::new` with the key pattern, then `Regex::replace`: the leftmost match, which
/// takes in as many key characters as there are, is replaced; a text without a match stays
/// as it is. Capture references in the replacement are expanded, which has a name; without
/// `$` the replacement is taken literally.
#[verifier::external_body]
fn replace_match(pattern: &str, target: &str, replacement: &str) -> (text: String)
    requires
        pattern@ == "sentry_key=([a-f0-9]+)"@,
    ensures
        key_start(target@, 0) is None ==> text@ == target@,
        key_start(target@, 0) matches Some(start) ==> text@ == splice(
            target@,
            start,
            if replacement@.contains('$') {
                template_expanded(replacement@, marked_key(target@, start))
            } else {
                replacement@
            },
        ),
{
    Regex::new(pattern).unwrap().replace(target, replacement).into_owned()
}

/// A text whose first marked key is another one. A text without one stays as it is.
pub open spec fn with_key(text: Seq<char>, public_key: Seq<char>) -> Seq<char> {
    match key_start(text, 0) {
        None => text,
        Some(start) => splice(
            text,
            start,
            expansion(key_marker() + public_key, marked_key(text, start)),
        ),
    }
}

/// Replaces the first marked key in a text by the public key of a DSN.
pub fn replace_public_key(target: &str, outbound: &Dsn) -> (text: String)
    ensures
        text@ == with_key(target@, outbound.public_key@),
{
    let mut replacement = "sentry_key=".to_owned();
    replacement.append(outbound.public_key.as_str());
    replace_match("sentry_key=([a-f0-9]+)", target, replacement.as_str())
}

/// Whether a character ends the value of a component.
pub open spec fn is_delimiter(c: char) -> bool {
    c == ',' || c == '&' || c == ';' || c == ' '
}

/// Where the value that starts at `from` ends.
pub open spec fn value_end(text: Seq<char>, from: int) -> int
    decreases text.len() - from,
{
    if 0 <= from < text.len() && !is_delimiter(text[from]) {
        value_end(text, from + 1)
    } else {
        from
    }
}

/// The value behind the first marker in a text, up to a delimiter. An empty value is none.
pub open spec fn claimed_key(text: Seq<char>) -> Option<Seq<char>> {
    match first_stand(text, key_marker(), 0) {
        None => None,
        Some(start) => {
            let from = start + key_marker().len();
            let end = value_end(text, from);
            if end > from {
                Some(text.subrange(from, end))
            } else {
                None
            }
        },
    }
}

/// Finds the key that a text claims.
pub fn find_key(text: &str) -> (key: Option<String>)
    ensures
        key is Some <==> claimed_key(text@) is Some,
        key matches Some(k) ==> claimed_key(text@) == Some(k@),
{
    let chars = chars_of(text);
    let marker = "sentry_key=";
    match find_text(chars.as_slice(), marker) {
        None => None,
        Some(start) => {
            let length: usize = chars.len();
            let from: usize = start + chars_of(marker).len();
            let mut end: usize = from;
            while end < length && !(chars[end] == ',' || chars[end] == '&' || chars[end] == ';'
                || chars[end] == ' ')
                invariant
                    from <= end <= length == chars@.len(),
                    value_end(chars@, from as int) == value_end(chars@, end as int),
                decreases chars@.len() - end,
            {
                end += 1;
            }
            if end > from {
                Some(text_between(chars.as_slice(), from, end))
            } else {
                None
            }
        },
    }
}

/// Whether a text can be a key that is replaced.
pub open spec fn is_key(key: Seq<char>) -> bool {
    key.len() > 0 && forall|i: int| 0 <= i < key.len() ==> is_key_char(#[trigger] key[i])
}

/// The first position at which a marked key stands is where the first one starts.
proof fn lemma_key_start(text: Seq<char>, from: int, start: int)
    requires
        0 <= from <= start < text.len(),
        is_key_at(text, start),
        forall|j: int| from <= j < start ==> !is_key_at(text, j),
    ensures
        key_start(text, from) == Some(start),
    decreases start - from,
{
    if from < start {
        lemma_key_start(text, from + 1, start);
    }
}

/// Where the first marked key starts, one stands, and none before it.
proof fn lemma_key_found(text: Seq<char>, from: int)
    requires
        0 <= from,
    ensures
        key_start(text, from) matches Some(start) ==> {
            &&& from <= start < text.len()
            &&& is_key_at(text, start)
            &&& forall|j: int| from <= j < start ==> !is_key_at(text, j)
        },
    decreases text.len() - from,
{
    if from < text.len() && !is_key_at(text, from) {
        lemma_key_found(text, from + 1);
    }
}

/// A run of key characters ends where the next character is none.
proof fn lemma_key_end(text: Seq<char>, from: int, end: int)
    requires
        0 <= from <= end <= text.len(),
        forall|j: int| from <= j < end ==> is_key_char(#[trigger] text[j]),
        end < text.len() ==> !is_key_char(text[end]),
    ensures
        key_end(text, from) == end,
    decreases end - from,
{
    if from < end {
        lemma_key_end(text, from + 1, end);
    }
}

/// Where a run of key characters ends.
proof fn lemma_key_run(text: Seq<char>, from: int)
    requires
        0 <= from <= text.len(),
    ensures
        from <= key_end(text, from) <= text.len(),
        forall|j: int| from <= j < key_end(text, from) ==> is_key_char(#[trigger] text[j]),
        key_end(text, from) < text.len() ==> !is_key_char(text[key_end(text, from)]),
    decreases text.len() - from,
{
    if from < text.len() && is_key_char(text[from]) {
        lemma_key_run(text, from + 1);
    }
}

/// A marker stands in a text exactly where its characters are.
proof fn lemma_stands(text: Seq<char>, i: int)
    requires
        0 <= i,
    ensures
        stands_at(text, key_marker(), i) <==> i + key_marker().len() <= text.len() && forall|
            j: int,
        |
            0 <= j < key_marker().len() ==> #[trigger] text[i + j] == key_marker()[j],
{
    let marker = key_marker();
    if i + marker.len() <= text.len() {
        let part = text.subrange(i, i + marker.len());
        if stands_at(text, marker, i) {
            assert forall|j: int| 0 <= j < marker.len() implies #[trigger] text[i + j]
                == marker[j] by {
                assert(part[j] == text[i + j]);
            }
        } else if forall|j: int| 0 <= j < marker.len() ==> #[trigger] text[i + j] == marker[j] {
            assert forall|j: int| 0 <= j < marker.len() implies part[j] == marker[j] by {
                assert(text[i + j] == marker[j]);
            }
            assert(part =~= marker);
        }
    }
}

/// Two texts that agree up to and with a marker at `start` have the same markers before it.
proof fn lemma_same_markers(a: Seq<char>, b: Seq<char>, start: int, i: int)
    requires
        0 <= i < start,
        start + key_marker().len() <= a.len(),
        start + key_marker().len() <= b.len(),
        forall|j: int| 0 <= j < start + key_marker().len() ==> #[trigger] a[j] == b[j],
    ensures
        stands_at(a, key_marker(), i) == stands_at(b, key_marker(), i),
        is_key_at(a, i) == is_key_at(b, i),
{
    reveal_strlit("sentry_key=");
    lemma_stands(a, i);
    lemma_stands(b, i);
    assert forall|j: int| 0 <= j < key_marker().len() implies #[trigger] a[i + j] == b[i + j] by {}
}

/// A key is replaced where it stands: what stands before the marker and what stands behind
/// the old key is kept, for every new key without a `$`.
pub proof fn law_key_replaced(text: Seq<char>, public_key: Seq<char>)
    requires
        !public_key.contains('$'),
    ensures
        key_start(text, 0) is None ==> with_key(text, public_key) == text,
        key_start(text, 0) matches Some(start) ==> with_key(text, public_key) == text.take(start)
            + key_marker() + public_key + text.skip(
            key_end(text, start + key_marker().len()),
        ),
{
    reveal_strlit("sentry_key=");
    if let Some(start) = key_start(text, 0) {
        lemma_key_found(text, 0);
        let from = start + key_marker().len();
        lemma_key_run(text, from as int);
        let template = key_marker() + public_key;
        assert(!template.contains('$')) by {
            if template.contains('$') {
                let j = choose|j: int| 0 <= j < template.len() && template[j] == '$';
                if j >= key_marker().len() {
                    assert(public_key[j - key_marker().len()] == '$');
                }
            }
        }
        assert(with_key(text, public_key) =~= text.take(start) + key_marker() + public_key
            + text.skip(key_end(text, from as int)));
    }
}

/// Of two keys that are put in one after the other, the later one stands: a request that
/// was mirrored once can be mirrored again.
pub proof fn law_later_key_stands(text: Seq<char>, first: Seq<char>, second: Seq<char>)
    requires
        is_key(first),
        is_key(second),
    ensures
        with_key(with_key(text, first), second) == with_key(text, second),
{
    reveal_strlit("sentry_key=");
    assert(!first.contains('$')) by {
        if first.contains('$') {
            let j = choose|j: int| 0 <= j < first.len() && first[j] == '$';
            assert(is_key_char(first[j]));
        }
    }
    assert(!second.contains('$')) by {
        if second.contains('$') {
            let j = choose|j: int| 0 <= j < second.len() && second[j] == '$';
            assert(is_key_char(second[j]));
        }
    }
    law_key_replaced(text, first);
    law_key_replaced(text, second);
    if let Some(start) = key_start(text, 0) {
        let width = key_marker().len() as int;
        lemma_key_found(text, 0);
        lemma_key_run(text, start + width);
        lemma_stands(text, start);
        let old_end = key_end(text, start + width);
        let once = with_key(text, first);
        assert forall|j: int| 0 <= j < start + width implies #[trigger] once[j] == text[j] by {
            if j >= start {
                assert(text[start + (j - start)] == key_marker()[j - start]);
            }
        }
        lemma_stands(once, start);
        assert forall|j: int| 0 <= j < width implies #[trigger] once[start + j]
            == key_marker()[j] by {
            assert(text[start + j] == key_marker()[j]);
        }
        assert(once[start + width] == first[0]);
        assert(is_key_at(once, start));
        assert forall|j: int| 0 <= j < start implies !is_key_at(once, j) by {
            lemma_same_markers(text, once, start, j);
        }
        lemma_key_start(once, 0, start);
        let new_end = start + width + first.len();
        assert forall|j: int| start + width <= j < new_end implies is_key_char(
            #[trigger] once[j],
        ) by {
            assert(once[j] == first[j - start - width]);
        }
        if new_end < once.len() {
            assert(once[new_end] == text[old_end]);
        }
        lemma_key_end(once, start + width, new_end);
        law_key_replaced(once, second);
        assert(once.take(start) =~= text.take(start));
        assert(once.skip(new_end) =~= text.skip(old_end));
    } else {
        assert(with_key(text, first) == text);
    }
}

/// The first position at which a marker stands is where the first one is found.
proof fn lemma_first_stand(text: Seq<char>, from: int, start: int)
    requires
        0 <= from <= start,
        stands_at(text, key_marker(), start),
        forall|j: int| from <= j < start ==> !stands_at(text, key_marker(), j),
    ensures
        first_stand(text, key_marker(), from) == Some(start),
    decreases start - from,
{
    reveal_strlit("sentry_key=");
    lemma_stands(text, start);
    if from < start {
        lemma_first_stand(text, from + 1, start);
    }
}

/// Where the first marker is found, one stands, and none before it.
proof fn lemma_stand_found(text: Seq<char>, from: int)
    requires
        0 <= from,
    ensures
        first_stand(text, key_marker(), from) matches Some(start) ==> {
            &&& from <= start
            &&& stands_at(text, key_marker(), start)
            &&& forall|j: int| from <= j < start ==> !stands_at(text, key_marker(), j)
        },
    decreases text.len() - from + 1,
{
    if from <= text.len() && !stands_at(text, key_marker(), from) {
        lemma_stand_found(text, from + 1);
    }
}

/// Where a value ends.
proof fn lemma_value_run(text: Seq<char>, from: int)
    requires
        0 <= from <= text.len(),
    ensures
        from <= value_end(text, from) <= text.len(),
        forall|j: int| from <= j < value_end(text, from) ==> !is_delimiter(#[trigger] text[j]),
        value_end(text, from) < text.len() ==> is_delimiter(text[value_end(text, from)]),
    decreases text.len() - from,
{
    if from < text.len() && !is_delimiter(text[from]) {
        lemma_value_run(text, from + 1);
    }
}

/// A value ends where the next character is a delimiter.
proof fn lemma_value_end(text: Seq<char>, from: int, end: int)
    requires
        0 <= from <= end <= text.len(),
        forall|j: int| from <= j < end ==> !is_delimiter(#[trigger] text[j]),
        end < text.len() ==> is_delimiter(text[end]),
    ensures
        value_end(text, from) == end,
    decreases end - from,
{
    if from < end {
        lemma_value_end(text, from + 1, end);
    }
}

/// A mirrored header or query claims the outbound key: where a text claims a key of the
/// form that is replaced, it claims the new key once that one is put in.
pub proof fn law_new_key_claimed(text: Seq<char>, public_key: Seq<char>)
    requires
        claimed_key(text) matches Some(old_key) && is_key(old_key),
        public_key.len() > 0,
        !public_key.contains('$'),
        forall|i: int| 0 <= i < public_key.len() ==> !is_delimiter(#[trigger] public_key[i]),
    ensures
        claimed_key(with_key(text, public_key)) == Some(public_key),
{
    reveal_strlit("sentry_key=");
    let width = key_marker().len() as int;
    lemma_stand_found(text, 0);
    let start = first_stand(text, key_marker(), 0)->0;
    let from = start + width;
    lemma_stands(text, start);
    lemma_value_run(text, from);
    let end = value_end(text, from);
    let old_key = text.subrange(from, end);
    assert forall|j: int| from <= j < end implies is_key_char(#[trigger] text[j]) by {
        assert(is_key_char(old_key[j - from]));
    }
    lemma_key_end(text, from, end);
    assert(is_key_at(text, start));
    assert forall|j: int| 0 <= j < start implies !is_key_at(text, j) by {
        assert(!stands_at(text, key_marker(), j));
    }
    lemma_key_start(text, 0, start);
    law_key_replaced(text, public_key);
    let new_text = with_key(text, public_key);
    let new_end = from + public_key.len();
    assert forall|j: int| 0 <= j < from implies #[trigger] text[j] == new_text[j] by {
        if j >= start {
            assert(text[start + (j - start)] == key_marker()[j - start]);
        }
    }
    lemma_stands(new_text, start);
    assert forall|j: int| 0 <= j < width implies #[trigger] new_text[start + j]
        == key_marker()[j] by {
        assert(text[start + j] == key_marker()[j]);
    }
    assert forall|j: int| 0 <= j < start implies !stands_at(new_text, key_marker(), j) by {
        lemma_same_markers(text, new_text, start, j);
    }
    lemma_first_stand(new_text, 0, start);
    assert forall|j: int| from <= j < new_end implies !is_delimiter(#[trigger] new_text[j]) by {
        assert(new_text[j] == public_key[j - from]);
    }
    if new_end < new_text.len() {
        assert(new_text[new_end] == text[end]);
    }
    lemma_value_end(new_text, from, new_end);
    assert(new_text.subrange(from, new_end) =~= public_key);
}

/// Every character of a text with its key replaced is one of the text, of the marker or of
/// the new key.
pub proof fn lemma_replaced_chars(text: Seq<char>, public_key: Seq<char>)
    requires
        !public_key.contains('$'),
    ensures
        forall|i: int|
            0 <= i < with_key(text, public_key).len() ==> {
                let c = #[trigger] with_key(text, public_key)[i];
                text.contains(c) || key_marker().contains(c) || public_key.contains(c)
            },
{
    reveal_strlit("sentry_key=");
    law_key_replaced(text, public_key);
    lemma_key_found(text, 0);
    let new_text = with_key(text, public_key);
    if let Some(start) = key_start(text, 0) {
        let width = key_marker().len() as int;
        lemma_key_run(text, start + width);
        let end = key_end(text, start + width);
        assert forall|i: int| 0 <= i < new_text.len() implies {
            let c = #[trigger] new_text[i];
            text.contains(c) || key_marker().contains(c) || public_key.contains(c)
        } by {
            let key_at = start + width;
            let rest_at = key_at + public_key.len();
            if i < start {
                assert(new_text[i] == text[i]);
            } else if i < key_at {
                assert(new_text[i] == key_marker()[i - start]);
            } else if i < rest_at {
                assert(new_text[i] == public_key[i - key_at]);
            } else {
                assert(new_text[i] == text[end + (i - rest_at)]);
            }
        }
    }
}

/// A text that marks a key at some position, in whatever surroundings, marks the new key at
/// that position in the same surroundings once that one is put in. Markers further to the
/// left do not count, where no hexadecimal digit in lower case follows them.
pub proof fn law_marked_key_replaced(
    before: Seq<char>,
    old_key: Seq<char>,
    behind: Seq<char>,
    new_key: Seq<char>,
)
    requires
        old_key.len() > 0,
        forall|i: int|
            0 <= i < old_key.len() ==> 'a' <= #[trigger] old_key[i] <= 'f' || '0' <= old_key[i]
                <= '9',
        behind.len() > 0 ==> !('a' <= behind[0] <= 'f' || '0' <= behind[0] <= '9'),
        forall|x: Seq<char>, c: char, y: Seq<char>|
            x.len() < before.len() && ('a' <= c <= 'f' || '0' <= c <= '9') ==> before
                + "sentry_key="@ + old_key + behind != #[trigger] (x + "sentry_key="@ + seq![c]
                + y),
        !new_key.contains('$'),
    ensures
        with_key(before + "sentry_key="@ + old_key + behind, new_key) == before + "sentry_key="@
            + new_key + behind,
{
    reveal_strlit("sentry_key=");
    let text = before + "sentry_key="@ + old_key + behind;
    let width = key_marker().len() as int;
    let start = before.len() as int;
    let from = start + width;
    let end = from + old_key.len();
    assert(text.subrange(start, from) =~= key_marker());
    assert(text[from] == old_key[0]);
    assert(is_key_at(text, start));
    assert forall|j: int| 0 <= j < start implies !is_key_at(text, j) by {
        if is_key_at(text, j) {
            lemma_key_shown(text, j);
        }
    }
    lemma_key_start(text, 0, start);
    assert forall|j: int| from <= j < end implies is_key_char(#[trigger] text[j]) by {
        assert(text[j] == old_key[j - from]);
    }
    if end < text.len() {
        assert(text[end] == behind[0]);
    }
    lemma_key_end(text, from, end);
    law_key_replaced(text, new_key);
    assert(text.take(start) =~= before);
    assert(text.skip(end) =~= behind);
}

/// A marked key splits a text in what stands before the marker, the marker, the first
/// character of the key and the rest.
proof fn lemma_key_shown(text: Seq<char>, i: int)
    requires
        is_key_at(text, i),
    ensures
        ({
            let at = i + key_marker().len();
            text == text.take(i) + "sentry_key="@ + seq![text[at]] + text.skip(at + 1)
        }),
{
    reveal_strlit("sentry_key=");
    lemma_stands(text, i);
    let at = i + key_marker().len();
    assert forall|j: int| i <= j < at implies text[j] == key_marker()[j - i] by {
        assert(text[i + (j - i)] == key_marker()[j - i]);
    }
    assert(text =~= text.take(i) + "sentry_key="@ + seq![text[at]] + text.skip(at + 1));
}

/// A text that marks no key is left as it is, whatever the new key.
pub proof fn law_unmarked_text_kept(text: Seq<char>, new_key: Seq<char>)
    requires
        forall|x: Seq<char>, c: char, y: Seq<char>|
            'a' <= c <= 'f' || '0' <= c <= '9' ==> text != #[trigger] (x + "sentry_key="@ + seq![c]
                + y),
    ensures
        with_key(text, new_key) == text,
{
    lemma_key_found(text, 0);
    if let Some(start) = key_start(text, 0) {
        lemma_key_shown(text, start);
    }
}

/// A text claims what stands behind its first marker, up to a comma, an ampersand, a
/// semicolon, a space or the end. Nothing there is no claim.
pub proof fn law_key_claimed(before: Seq<char>, key: Seq<char>, behind: Seq<char>)
    requires
        forall|i: int|
            0 <= i < key.len() ==> #[trigger] key[i] != ',' && key[i] != '&' && key[i] != ';'
                && key[i] != ' ',
        behind.len() > 0 ==> behind[0] == ',' || behind[0] == '&' || behind[0] == ';' || behind[0]
            == ' ',
        forall|x: Seq<char>, y: Seq<char>|
            x.len() < before.len() ==> before + "sentry_key="@ + key + behind != #[trigger] (x
                + "sentry_key="@ + y),
    ensures
        key.len() > 0 ==> claimed_key(before + "sentry_key="@ + key + behind) == Some(key),
        key.len() == 0 ==> claimed_key(before + "sentry_key="@ + key + behind) is None,
{
    reveal_strlit("sentry_key=");
    let text = before + "sentry_key="@ + key + behind;
    let start = before.len() as int;
    let from = start + key_marker().len();
    let end = from + key.len();
    assert(text.subrange(start, from) =~= key_marker());
    assert forall|j: int| 0 <= j < start implies !stands_at(text, key_marker(), j) by {
        if stands_at(text, key_marker(), j) {
            lemma_marker_shown(text, j);
        }
    }
    lemma_first_stand(text, 0, start);
    assert forall|j: int| from <= j < end implies !is_delimiter(#[trigger] text[j]) by {
        assert(text[j] == key[j - from]);
    }
    if end < text.len() {
        assert(text[end] == behind[0]);
    }
    lemma_value_end(text, from, end);
    assert(text.subrange(from, end) =~= key);
}

/// A text without a marker claims nothing.
pub proof fn law_nothing_claimed(text: Seq<char>)
    requires
        forall|x: Seq<char>, y: Seq<char>| text != #[trigger] (x + "sentry_key="@ + y),
    ensures
        claimed_key(text) is None,
{
    lemma_stand_found(text, 0);
    if let Some(start) = first_stand(text, key_marker(), 0) {
        lemma_marker_shown(text, start);
    }
}

/// A marker splits a text in what stands before it and what stands behind it.
proof fn lemma_marker_shown(text: Seq<char>, i: int)
    requires
        stands_at(text, key_marker(), i),
    ensures
        text == text.take(i) + "sentry_key="@ + text.skip(i + key_marker().len()),
{
    lemma_stands(text, i);
    let at = i + key_marker().len();
    assert forall|j: int| i <= j < at implies text[j] == key_marker()[j - i] by {
        assert(text[i + (j - i)] == key_marker()[j - i]);
    }
    assert(text =~= text.take(i) + "sentry_key="@ + text.skip(at));
}

/// A claimed key is not empty.
pub proof fn lemma_claim_not_empty(text: Seq<char>)
    ensures
        claimed_key(text) matches Some(key) ==> key.len() > 0,
{
    lemma_stand_found(text, 0);
    if let Some(start) = first_stand(text, key_marker(), 0) {
        lemma_value_run(text, start + key_marker().len());
    }
}

} // verus!
