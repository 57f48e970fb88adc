//! HTTP header maps: the `HeaderMap` of the `http` crate (as `hyper` exports it), seen as
//! a map from each header name to the values it carries, in order.
use hyper::header::{HeaderName, HeaderValue};
use hyper::HeaderMap;
use vstd::prelude::*;
use vstd::utf8::*;

use crate::text::text_of;

verus! {

/// The header map of the `http` crate.
#[verifier::external_type_specification]
#[verifier::external_body]
#[verifier::reject_recursive_types(T)]
pub struct ExHeaderMap<T>(HeaderMap<T>);

/// A header name of the `http` crate.
#[verifier::external_type_specification]
#[verifier::external_body]
pub struct ExHeaderName(HeaderName);

/// A header value of the `http` crate.
#[verifier::external_type_specification]
#[verifier::external_body]
pub struct ExHeaderValue(HeaderValue);

/// The text of a header name, as `HeaderName::as_str` gives it.
pub uninterp spec fn name_text(name: HeaderName) -> Seq<char>;

/// The bytes of a header value.
pub uninterp spec fn value_bytes(value: HeaderValue) -> Seq<u8>;

/// The names and values of a header map, in the order in which the map hands them out: each
/// value once, those of one name one after the other.
pub uninterp spec fn header_list(headers: HeaderMap<HeaderValue>) -> Seq<(Seq<char>, Seq<u8>)>;

/// What a header map holds: for each name the values under that name, in order.
pub open spec fn header_contents(headers: HeaderMap<HeaderValue>) -> Map<
    Seq<char>,
    Seq<Seq<u8>>,
> {
    grouped(header_list(headers))
}

/// Whether no name stands in a header map at two places.
pub uninterp spec fn has_distinct_names(headers: HeaderMap<HeaderValue>) -> bool;

/// Up to this many names a header map takes one more, however its names collide in its hash
/// table.
pub const MAX_HEADER_NAMES: usize = 6553;

/// The header map that holds nothing.
pub open spec fn no_headers() -> Map<Seq<char>, Seq<Seq<u8>>> {
    Map::empty()
}

/// Whether a character may stand in a header name that is looked up as text.
pub open spec fn is_name_char(c: char) -> bool {
    ||| 'a' <= c <= 'z'
    ||| '0' <= c <= '9'
    ||| '^' <= c <= '`'
    ||| '#' <= c <= '\''
    ||| c == '!' || c == '*' || c == '+' || c == '-' || c == '.' || c == '|' || c == '~'
}

/// Whether a text is a header name in lower case.
pub open spec fn is_header_name(name: Seq<char>) -> bool {
    &&& 0 < name.len() < 0x1_0000
    &&& forall|i: int| 0 <= i < name.len() ==> is_name_char(#[trigger] name[i])
}

/// Whether a byte may stand in a header value.
pub open spec fn is_value_byte(b: u8) -> bool {
    b >= 32 && b != 127 || b == 9
}

/// Whether bytes are a header value.
pub open spec fn is_header_value(value: Seq<u8>) -> bool {
    forall|i: int| 0 <= i < value.len() ==> is_value_byte(#[trigger] value[i])
}

/// Whether a byte is one that a header value shows as text.
pub open spec fn is_visible_byte(b: u8) -> bool {
    32 <= b < 127 || b == 9
}

/// Whether a header value can be read as text.
pub open spec fn is_visible(value: Seq<u8>) -> bool {
    forall|i: int| 0 <= i < value.len() ==> is_visible_byte(#[trigger] value[i])
}

/// The text that a readable header value spells: one character for each byte.
pub open spec fn visible_text(value: Seq<u8>) -> Seq<char> {
    Seq::new(value.len(), |i: int| value[i] as char)
}

/// What names and values spell.
pub open spec fn listed(pairs: Seq<(HeaderName, HeaderValue)>) -> Seq<(Seq<char>, Seq<u8>)> {
    Seq::new(pairs.len(), |i: int| (name_text(pairs[i].0), value_bytes(pairs[i].1)))
}

/// The map that adding the pairs one after the other gives.
pub open spec fn grouped(pairs: Seq<(Seq<char>, Seq<u8>)>) -> Map<Seq<char>, Seq<Seq<u8>>>
    decreases pairs.len(),
{
    if pairs.len() == 0 {
        Map::empty()
    } else {
        let before = grouped(pairs.drop_last());
        let name = pairs.last().0;
        let value = pairs.last().1;
        before.insert(
            name,
            if before.contains_key(name) {
                before[name].push(value)
            } else {
                seq![value]
            },
        )
    }
}

/// One more pair adds its value behind the values that its name has.
pub proof fn lemma_grouped_step(pairs: Seq<(Seq<char>, Seq<u8>)>, i: int)
    requires
        0 <= i < pairs.len(),
    ensures
        grouped(pairs.take(i + 1)) == {
            let before = grouped(pairs.take(i));
            let name = pairs[i].0;
            before.insert(
                name,
                if before.contains_key(name) {
                    before[name].push(pairs[i].1)
                } else {
                    seq![pairs[i].1]
                },
            )
        },
{
    assert(pairs.take(i + 1).drop_last() =~= pairs.take(i));
}

/// The names of the first pairs are finitely many, and all there in the end.
pub proof fn lemma_grouped_names(pairs: Seq<(Seq<char>, Seq<u8>)>, i: int)
    requires
        0 <= i <= pairs.len(),
    ensures
        grouped(pairs).dom().finite(),
        grouped(pairs.take(i)).dom().subset_of(grouped(pairs).dom()),
    decreases pairs.len(),
{
    if i == pairs.len() {
        assert(pairs.take(i) =~= pairs);
        if i > 0 {
            lemma_grouped_names(pairs.drop_last(), i - 1);
        }
    } else {
        lemma_grouped_names(pairs.drop_last(), i);
        assert(pairs.drop_last().take(i) =~= pairs.take(i));
    }
}

/// Each pair's value stands under its name.
pub proof fn lemma_grouped_pair(pairs: Seq<(Seq<char>, Seq<u8>)>, i: int)
    requires
        0 <= i < pairs.len(),
    ensures
        grouped(pairs).contains_key(pairs[i].0),
        grouped(pairs)[pairs[i].0].contains(pairs[i].1),
    decreases pairs.len(),
{
    let before = grouped(pairs.drop_last());
    let name = pairs.last().0;
    let value = pairs.last().1;
    if i == pairs.len() - 1 {
        assert(grouped(pairs)[name].last() == value);
    } else {
        lemma_grouped_pair(pairs.drop_last(), i);
        if pairs[i].0 == name {
            let j = choose|j: int| 0 <= j < before[name].len() && before[name][j] == pairs[i].1;
            assert(grouped(pairs)[name][j] == pairs[i].1);
        }
    }
}

/// `HeaderMap::new`: a header map that holds nothing.
#[verifier::external_body]
pub(crate) fn new_headers() -> (headers: HeaderMap)
    ensures
        header_contents(headers) == no_headers(),
        has_distinct_names(headers),
{
    HeaderMap::new()
}

/// `HeaderMap::iter`, each name and value cloned: every value once with its name, in the
/// order in which the map holds them.
#[verifier::external_body]
pub(crate) fn header_pairs(headers: &HeaderMap) -> (pairs: Vec<(HeaderName, HeaderValue)>)
    ensures
        listed(pairs@) == header_list(*headers),
{
    headers.iter().map(|(name, value)| (name.clone(), value.clone())).collect()
}

/// `HeaderName::as_str`, the text copied out.
#[verifier::external_body]
pub(crate) fn copy_name(name: &HeaderName) -> (text: String)
    ensures
        text@ == name_text(*name),
{
    name.as_str().to_owned()
}

/// `HeaderValue::as_bytes`, the bytes copied out.
#[verifier::external_body]
pub(crate) fn copy_bytes(value: &HeaderValue) -> (bytes: Vec<u8>)
    ensures
        bytes@ == value_bytes(*value),
{
    value.as_bytes().to_vec()
}

/// `HeaderValue::clone`: a value with the same bytes. The mark of a sensitive value is kept
/// too, which is not stated.
#[verifier::external_body]
pub(crate) fn clone_value(value: &HeaderValue) -> (copy: HeaderValue)
    ensures
        value_bytes(copy) == value_bytes(*value),
{
    value.clone()
}

/// `HeaderValue::from_str`: a header value with the bytes of a text, or `None` where one of
/// them may not stand in a header value.
#[verifier::external_body]
pub(crate) fn parse_value(text: &str) -> (value: Option<HeaderValue>)
    ensures
        value is Some <==> is_header_value(encode_utf8(text@)),
        value matches Some(v) ==> value_bytes(v) == encode_utf8(text@),
{
    HeaderValue::from_str(text).ok()
}

/// `HeaderMap::get`, the value copied out: the first value under a name given in lower
/// case, or `None` where the name is not there.
#[verifier::external_body]
pub(crate) fn first_value(headers: &HeaderMap, name: &str) -> (value: Option<Vec<u8>>)
    requires
        is_header_name(name@),
    ensures
        value is Some <==> header_contents(*headers).contains_key(name@),
        value matches Some(v) ==> header_contents(*headers)[name@].len() > 0
            && header_contents(*headers)[name@][0] == v@,
{
    headers.get(name).map(|value| value.as_bytes().to_vec())
}

/// `HeaderMap::try_insert`: the name carries the value, and no other, from then on; every
/// other name keeps its values. The result tells whether the map had room, which it has for
/// up to `MAX_HEADER_NAMES` names. From there on that depends on how the names collide, and
/// is left open.
#[verifier::external_body]
pub(crate) fn insert_header(headers: &mut HeaderMap, name: &HeaderName, value: HeaderValue) -> (
inserted: bool)
    requires
        has_distinct_names(*old(headers)),
    ensures
        header_contents(*old(headers)).len() <= MAX_HEADER_NAMES ==> inserted,
        inserted ==> has_distinct_names(*final(headers)),
        inserted ==> header_contents(*final(headers)) == header_contents(*old(headers)).insert(
            name_text(*name),
            seq![value_bytes(value)],
        ),
{
    headers.try_insert(name, value).is_ok()
}

/// The text of a header value, or `None` where the value holds a byte that is neither a
/// visible ASCII character nor a tab.
pub fn value_text(value: &[u8]) -> (text: Option<String>)
    ensures
        text is Some <==> is_visible(value@),
        text matches Some(t) ==> t@ == visible_text(value@),
{
    let mut chars: Vec<char> = Vec::new();
    let mut i: usize = 0;
    while i < value.len()
        invariant
            i <= value@.len(),
            chars@ == visible_text(value@.take(i as int)),
            forall|j: int| 0 <= j < i ==> is_visible_byte(#[trigger] value@[j]),
        decreases value@.len() - i,
    {
        let b: u8 = value[i];
        if !(32 <= b && b < 127 || b == 9) {
            assert(!is_visible_byte(value@[i as int]));
            return None;
        }
        chars.push(b as char);
        i += 1;
        assert(chars@ =~= visible_text(value@.take(i as int)));
    }
    assert(value@.take(i as int) =~= value@);
    Some(text_of(chars.as_slice()))
}

/// What a header map holds is what it lists: one more name and value adds the value behind
/// those that the name has, and changes nothing else.
pub proof fn law_listed_values(
    pairs: Seq<(Seq<char>, Seq<u8>)>,
    name: Seq<char>,
    value: Seq<u8>,
    other: Seq<char>,
)
    requires
        other != name,
    ensures
        ({
            let before = grouped(pairs);
            let after = grouped(pairs + seq![(name, value)]);
            &&& after.contains_key(name)
            &&& before.contains_key(name) ==> after[name] == before[name] + seq![value]
            &&& !before.contains_key(name) ==> after[name] == seq![value]
            &&& after.contains_key(other) == before.contains_key(other)
            &&& before.contains_key(other) ==> after[other] == before[other]
        }),
        grouped(Seq::empty()) == Map::<Seq<char>, Seq<Seq<u8>>>::empty(),
{
    let all = pairs + seq![(name, value)];
    assert(all.drop_last() =~= pairs);
    if grouped(pairs).contains_key(name) {
        assert(grouped(all)[name] =~= grouped(pairs)[name] + seq![value]);
    }
}

} // verus!
