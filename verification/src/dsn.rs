//! DSNs, and the keys that requests are matched by.
use hyper::HeaderMap;
use vstd::prelude::*;
use vstd::string::*;

use crate::auth::{claimed_key, find_key};
use crate::headers::{
    first_value, header_contents, is_header_name, is_visible, is_visible_byte, value_text,
    visible_text,
};
use crate::text::{
    chars_of, find_char, first_of, found_at, lemma_first_of, lemma_first_of_unique, stands_at,
    text_between,
};
use crate::uri::RequestUri;

verus! {

/// The header that carries a key in the HTTP standard.
pub const AUTHORIZATION_HEADER: &'static str = "authorization";

/// The header that carries a key in Sentry's own protocol.
pub const SENTRY_X_AUTH_HEADER: &'static str = "x-sentry-auth";

/// The address that a project takes data at:
/// `scheme://public_key@host/project_id`, where the host may carry a port.
#[derive(Debug, Clone)]
pub struct Dsn {
    pub scheme: String,
    pub public_key: String,
    pub host: String,
    pub project_id: String,
}

/// The texts of the parts of a DSN.
pub struct DsnParts {
    pub scheme: Seq<char>,
    pub public_key: Seq<char>,
    pub host: Seq<char>,
    pub project_id: Seq<char>,
}

impl View for Dsn {
    type V = DsnParts;

    open spec fn view(&self) -> DsnParts {
        DsnParts {
            scheme: self.scheme@,
            public_key: self.public_key@,
            host: self.host@,
            project_id: self.project_id@,
        }
    }
}

/// A DSN as text.
pub open spec fn dsn_text(dsn: DsnParts) -> Seq<char> {
    dsn.scheme + "://"@ + dsn.public_key + "@"@ + dsn.host + "/"@ + dsn.project_id
}

/// The parts of the DSN that a text is, or `None` where it is none. No part is empty. The
/// scheme ends at the first colon, the key at the first at sign behind it and the host at
/// the first slash behind that; the project id holds no slash.
pub open spec fn dsn_parts(text: Seq<char>) -> Option<DsnParts> {
    let colon = first_of(text, ':', 0);
    let at = first_of(text, '@', colon + 3);
    let slash = first_of(text, '/', at + 1);
    if 0 < colon && stands_at(text, "://"@, colon) && colon + 3 < at && at + 1 < slash && slash + 1
        < text.len() && first_of(text, '/', slash + 1) == text.len() {
        Some(
            DsnParts {
                scheme: text.subrange(0, colon),
                public_key: text.subrange(colon + 3, at),
                host: text.subrange(at + 1, slash),
                project_id: text.subrange(slash + 1, text.len() as int),
            },
        )
    } else {
        None
    }
}

impl Dsn {
    /// Reads a DSN from text.
    pub fn parse(text: &str) -> (parsed: Option<Dsn>)
        ensures
            parsed is Some <==> dsn_parts(text@) is Some,
            parsed matches Some(dsn) ==> dsn_parts(text@) == Some(dsn@),
    {
        let chars = chars_of(text);
        let all = chars.as_slice();
        let length: usize = all.len();
        let colon: usize = find_char(all, ':', 0);
        proof {
            reveal_strlit("://");
        }
        if colon == 0 || !found_at(all, chars_of("://").as_slice(), colon) {
            return None;
        }
        let at: usize = find_char(all, '@', colon + 3);
        if at == length {
            assert(first_of(all@, '/', at + 1) == length);
            return None;
        }
        let slash: usize = find_char(all, '/', at + 1);
        if slash == length || at == colon + 3 || slash == at + 1 || slash + 1 == length {
            return None;
        }
        if find_char(all, '/', slash + 1) != length {
            return None;
        }
        Some(
            Dsn {
                scheme: text_between(all, 0, colon),
                public_key: text_between(all, colon + 3, at),
                host: text_between(all, at + 1, slash),
                project_id: text_between(all, slash + 1, length),
            },
        )
    }

    /// Renders the DSN as text.
    pub fn to_text(&self) -> (text: String)
        ensures
            text@ == dsn_text(self@),
    {
        let mut text = self.scheme.clone();
        text.append("://");
        text.append(self.public_key.as_str());
        text.append("@");
        text.append(self.host.as_str());
        text.append("/");
        text.append(self.project_id.as_str());
        text
    }
}

/// Whether the parts can be told apart again in the text of a DSN.
pub open spec fn is_dsn(dsn: DsnParts) -> bool {
    &&& dsn.scheme.len() > 0 && !dsn.scheme.contains(':')
    &&& dsn.public_key.len() > 0 && !dsn.public_key.contains('@')
    &&& dsn.host.len() > 0 && !dsn.host.contains('/')
    &&& dsn.project_id.len() > 0 && !dsn.project_id.contains('/')
}

/// Reading the text of a DSN gives back its parts.
pub proof fn law_text_then_parse(dsn: DsnParts)
    requires
        is_dsn(dsn),
    ensures
        dsn_parts(dsn_text(dsn)) == Some(dsn),
{
    reveal_strlit("://");
    reveal_strlit("@");
    reveal_strlit("/");
    let text = dsn_text(dsn);
    let colon = dsn.scheme.len() as int;
    let at = colon + 3 + dsn.public_key.len();
    let slash = at + 1 + dsn.host.len();
    let length = text.len() as int;
    assert(text.subrange(0, colon) =~= dsn.scheme);
    assert(text.subrange(colon, colon + 3) =~= "://"@);
    assert(text.subrange(colon + 3, at) =~= dsn.public_key);
    assert(text.subrange(at + 1, slash) =~= dsn.host);
    assert(text.subrange(slash + 1, length) =~= dsn.project_id);
    assert(text[colon] == ':') by {
        assert(text[colon] == text.subrange(colon, colon + 3)[0]);
    }
    assert(text[at] == '@');
    assert(text[slash] == '/');
    assert forall|j: int| 0 <= j < colon implies text[j] != ':' by {
        assert(text[j] == dsn.scheme[j]);
    }
    assert forall|j: int| colon + 3 <= j < at implies text[j] != '@' by {
        assert(text[j] == dsn.public_key[j - colon - 3]);
    }
    assert forall|j: int| at + 1 <= j < slash implies text[j] != '/' by {
        assert(text[j] == dsn.host[j - at - 1]);
    }
    assert forall|j: int| slash + 1 <= j < length implies text[j] != '/' by {
        assert(text[j] == dsn.project_id[j - slash - 1]);
    }
    lemma_first_of_unique(text, ':', 0, colon);
    lemma_first_of_unique(text, '@', colon + 3, at);
    lemma_first_of_unique(text, '/', at + 1, slash);
    lemma_first_of_unique(text, '/', slash + 1, length);
}

/// The parts of a DSN that was read can be told apart, and make up the text that it was
/// read from.
pub proof fn law_parse_then_text(text: Seq<char>)
    ensures
        dsn_parts(text) matches Some(dsn) ==> is_dsn(dsn) && dsn_text(dsn) == text,
{
    reveal_strlit("://");
    reveal_strlit("@");
    reveal_strlit("/");
    if let Some(dsn) = dsn_parts(text) {
        let colon = first_of(text, ':', 0);
        let at = first_of(text, '@', colon + 3);
        let slash = first_of(text, '/', at + 1);
        lemma_first_of(text, ':', 0);
        lemma_first_of(text, '@', colon + 3);
        lemma_first_of(text, '/', at + 1);
        lemma_first_of(text, '/', slash + 1);
        assert(text.subrange(colon, colon + 3) == "://"@);
        assert forall|j: int| colon <= j < colon + 3 implies text[j] == "://"@[j - colon] by {
            assert(text[j] == text.subrange(colon, colon + 3)[j - colon]);
        }
        assert(dsn_text(dsn) =~= text);
    }
}

/// The key that a header claims, where the header is there and can be read as text.
pub open spec fn header_key(contents: Map<Seq<char>, Seq<Seq<u8>>>, name: Seq<char>) -> Option<
    Seq<char>,
> {
    if contents.contains_key(name) && is_visible(contents[name][0]) {
        claimed_key(visible_text(contents[name][0]))
    } else {
        None
    }
}

/// The key that a request claims: in its headers, Sentry's own before the standard one, or
/// else in its query string.
pub open spec fn request_key(
    query: Option<Seq<char>>,
    contents: Map<Seq<char>, Seq<Seq<u8>>>,
) -> Option<Seq<char>> {
    match header_key(contents, SENTRY_X_AUTH_HEADER@) {
        Some(key) => Some(key),
        None => match header_key(contents, AUTHORIZATION_HEADER@) {
            Some(key) => Some(key),
            None => match query {
                Some(text) => claimed_key(text),
                None => None,
            },
        },
    }
}

fn key_in_header(headers: &HeaderMap, name: &str) -> (key: Option<String>)
    requires
        is_header_name(name@),
    ensures
        key is Some <==> header_key(header_contents(*headers), name@) is Some,
        key matches Some(k) ==> header_key(header_contents(*headers), name@) == Some(k@),
{
    match first_value(headers, name) {
        Some(value) => match value_text(value.as_slice()) {
            Some(text) => find_key(text.as_str()),
            None => None,
        },
        None => None,
    }
}

/// Finds the public key that a request claims in its headers or query string.
pub fn from_request(uri: &RequestUri, headers: &HeaderMap) -> (key: Option<String>)
    ensures
        key is Some <==> request_key(uri.query_text(), header_contents(*headers)) is Some,
        key matches Some(k) ==> request_key(uri.query_text(), header_contents(*headers)) == Some(k@),
{
    proof {
        reveal_strlit("x-sentry-auth");
        reveal_strlit("authorization");
    }
    let own = key_in_header(headers, SENTRY_X_AUTH_HEADER);
    if own.is_some() {
        return own;
    }
    let standard = key_in_header(headers, AUTHORIZATION_HEADER);
    if standard.is_some() {
        return standard;
    }
    match &uri.query {
        Some(query) => find_key(query.as_str()),
        None => None,
    }
}

/// The parts of a DSN are read from the text that they make up with the separators between
/// them, and only from such a text; that text is also what the DSN is rendered to.
pub proof fn law_dsn_form(
    scheme: Seq<char>,
    public_key: Seq<char>,
    host: Seq<char>,
    project_id: Seq<char>,
)
    requires
        scheme.len() > 0 && public_key.len() > 0 && host.len() > 0 && project_id.len() > 0,
        !scheme.contains(':') && !public_key.contains('@'),
        !host.contains('/') && !project_id.contains('/'),
    ensures
        ({
            let text = scheme + "://"@ + public_key + "@"@ + host + "/"@ + project_id;
            let dsn = DsnParts { scheme, public_key, host, project_id };
            dsn_parts(text) == Some(dsn) && dsn_text(dsn) == text
        }),
{
    law_text_then_parse(DsnParts { scheme, public_key, host, project_id });
}

/// A text that is read as a DSN is made up of parts that are not empty, with the separators
/// between them; the project id holds no slash.
pub proof fn law_dsn_refused(text: Seq<char>)
    ensures
        dsn_parts(text) matches Some(dsn) ==> {
            &&& text == dsn.scheme + "://"@ + dsn.public_key + "@"@ + dsn.host + "/"@
                + dsn.project_id
            &&& dsn.scheme.len() > 0 && dsn.public_key.len() > 0
            &&& dsn.host.len() > 0 && dsn.project_id.len() > 0
            &&& !dsn.project_id.contains('/')
        },
{
    law_parse_then_text(text);
}

/// The text that a header spells: `text` is that text, or `None` where the header is not
/// there or its first value holds a byte that is no visible character.
pub open spec fn spells(
    contents: Map<Seq<char>, Seq<Seq<u8>>>,
    name: Seq<char>,
    text: Option<Seq<char>>,
) -> bool {
    match text {
        Some(t) => contents.contains_key(name) && contents[name][0].len() == t.len() && forall|
            i: int,
        |
            0 <= i < t.len() ==> contents[name][0][i] as char == #[trigger] t[i] && (32
                <= contents[name][0][i] <= 126 || contents[name][0][i] == 9),
        None => contents.contains_key(name) ==> exists|i: int|
            0 <= i < contents[name][0].len() && !(32 <= #[trigger] contents[name][0][i] <= 126
                || contents[name][0][i] == 9),
    }
}

/// The key of a request is the one that Sentry's own header claims, or else the standard
/// header, or else the query string. A header that is not there, cannot be read or claims
/// nothing gives way to the next.
pub proof fn law_request_key_order(
    query: Option<Seq<char>>,
    contents: Map<Seq<char>, Seq<Seq<u8>>>,
    own: Option<Seq<char>>,
    standard: Option<Seq<char>>,
)
    requires
        spells(contents, "x-sentry-auth"@, own),
        spells(contents, "authorization"@, standard),
    ensures
        own is Some && claimed_key(own->0) is Some ==> request_key(query, contents) == claimed_key(
            own->0,
        ),
        (own is None || claimed_key(own->0) is None) && standard is Some && claimed_key(
            standard->0,
        ) is Some ==> request_key(query, contents) == claimed_key(standard->0),
        (own is None || claimed_key(own->0) is None) && (standard is None || claimed_key(
            standard->0,
        ) is None) && query is Some ==> request_key(query, contents) == claimed_key(query->0),
        (own is None || claimed_key(own->0) is None) && (standard is None || claimed_key(
            standard->0,
        ) is None) && query is None ==> request_key(query, contents) is None,
{
    lemma_spelled(contents, "x-sentry-auth"@, own);
    lemma_spelled(contents, "authorization"@, standard);
}

proof fn lemma_spelled(
    contents: Map<Seq<char>, Seq<Seq<u8>>>,
    name: Seq<char>,
    text: Option<Seq<char>>,
)
    requires
        spells(contents, name, text),
    ensures
        header_key(contents, name) == match text {
            Some(t) => claimed_key(t),
            None => None,
        },
{
    match text {
        Some(t) => {
            let value = contents[name][0];
            assert forall|i: int| 0 <= i < value.len() implies is_visible_byte(
                #[trigger] value[i],
            ) && value[i] as char == t[i] by {
                assert(value[i] as char == t[i]);
            }
            assert(visible_text(value) =~= t);
        },
        None => {
            if contents.contains_key(name) {
                let value = contents[name][0];
                let i = choose|i: int|
                    0 <= i < value.len() && !(32 <= #[trigger] value[i] <= 126 || value[i] == 9);
                assert(!is_visible_byte(value[i]));
            }
        },
    }
}

/// The parts of a DSN are the texts of its fields.
pub proof fn law_dsn_parts_shown(dsn: Dsn)
    ensures
        dsn@.scheme == dsn.scheme@,
        dsn@.public_key == dsn.public_key@,
        dsn@.host == dsn.host@,
        dsn@.project_id == dsn.project_id@,
{
}

} // verus!
