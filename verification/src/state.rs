//! The keys that the mirror serves, and the state that all requests share.
use vstd::prelude::*;
use vstd::string::*;

use crate::config::{ConfigData, DataCategory, KeyRing, OutboundEntry};
use crate::dsn::{dsn_parts, dsn_text, Dsn, DsnParts};
use crate::text::same_text;

verus! {

/// A destination that requests are mirrored to, with the categories it is restricted to.
#[derive(Debug)]
pub struct OutboundTarget {
    pub dsn: Dsn,
    pub categories: Option<Vec<DataCategory>>,
}

/// What a destination is made of.
pub struct TargetParts {
    pub dsn: DsnParts,
    pub categories: Option<Seq<DataCategory>>,
}

impl View for OutboundTarget {
    type V = TargetParts;

    open spec fn view(&self) -> TargetParts {
        TargetParts { dsn: self.dsn@, categories: category_list(self.categories) }
    }
}

/// The categories of an optional list.
pub open spec fn category_list(categories: Option<Vec<DataCategory>>) -> Option<
    Seq<DataCategory>,
> {
    match categories {
        Some(list) => Some(list@),
        None => None,
    }
}

/// What each of the destinations is made of.
pub open spec fn target_list(targets: Seq<OutboundTarget>) -> Seq<TargetParts> {
    Seq::new(targets.len(), |i: int| targets[i]@)
}

/// An inbound public key with the destinations that its requests are mirrored to.
#[derive(Debug)]
pub struct DsnKeyRing {
    pub public_key: String,
    pub outbound: Vec<OutboundTarget>,
}

/// The key rings by their inbound public key. No key occurs twice.
#[derive(Debug)]
pub struct KeyMap {
    rings: Vec<DsnKeyRing>,
}

impl View for KeyMap {
    type V = Map<Seq<char>, Seq<TargetParts>>;

    closed spec fn view(&self) -> Map<Seq<char>, Seq<TargetParts>> {
        ring_map(self.rings@)
    }
}

/// The destinations by public key, where a later ring takes the place of an earlier one.
pub open spec fn ring_map(rings: Seq<DsnKeyRing>) -> Map<Seq<char>, Seq<TargetParts>>
    decreases rings.len(),
{
    if rings.len() == 0 {
        Map::empty()
    } else {
        ring_map(rings.drop_last()).insert(
            rings.last().public_key@,
            target_list(rings.last().outbound@),
        )
    }
}

/// Whether no public key occurs twice.
pub open spec fn distinct_keys(rings: Seq<DsnKeyRing>) -> bool {
    forall|i: int, j: int|
        0 <= i < j < rings.len() ==> (#[trigger] rings[i]).public_key@ != (
        #[trigger] rings[j]).public_key@
}

/// Among rings with distinct keys, each is found under its key, and nothing else is found.
proof fn lemma_ring_map(rings: Seq<DsnKeyRing>)
    requires
        distinct_keys(rings),
    ensures
        forall|i: int|
            0 <= i < rings.len() ==> ring_map(rings).contains_key(
                (#[trigger] rings[i]).public_key@,
            ) && ring_map(rings)[rings[i].public_key@] == target_list(rings[i].outbound@),
        forall|key: Seq<char>| #[trigger]
            ring_map(rings).contains_key(key) ==> exists|i: int|
                0 <= i < rings.len() && (#[trigger] rings[i]).public_key@ == key,
    decreases rings.len(),
{
    if rings.len() > 0 {
        let before = rings.drop_last();
        assert(distinct_keys(before)) by {
            assert forall|i: int, j: int| 0 <= i < j < before.len() implies (
            #[trigger] before[i]).public_key@ != (#[trigger] before[j]).public_key@ by {
                assert(before[i] == rings[i] && before[j] == rings[j]);
            }
        }
        lemma_ring_map(before);
        assert forall|i: int| 0 <= i < rings.len() implies ring_map(rings).contains_key(
            (#[trigger] rings[i]).public_key@,
        ) && ring_map(rings)[rings[i].public_key@] == target_list(rings[i].outbound@) by {
            if i < rings.len() - 1 {
                assert(before[i] == rings[i]);
                assert(rings[i].public_key@ != rings[rings.len() - 1].public_key@);
            }
        }
        assert forall|key: Seq<char>| #[trigger]
            ring_map(rings).contains_key(key) implies exists|i: int|
            0 <= i < rings.len() && (#[trigger] rings[i]).public_key@ == key by {
            if key == rings.last().public_key@ {
                assert(rings[rings.len() - 1].public_key@ == key);
            } else {
                assert(ring_map(before).contains_key(key));
                let i = choose|i: int|
                    0 <= i < before.len() && (#[trigger] before[i]).public_key@ == key;
                assert(rings[i] == before[i]);
            }
        }
    }
}

impl KeyMap {
    /// The key rings, in the order in which they were put in.
    pub closed spec fn ring_list(&self) -> Seq<DsnKeyRing> {
        self.rings@
    }

    #[verifier::type_invariant]
    spec fn well_formed(self) -> bool {
        distinct_keys(self.rings@)
    }

    /// A key map without keys.
    pub fn new() -> (map: KeyMap)
        ensures
            map@ == Map::<Seq<char>, Seq<TargetParts>>::empty(),
    {
        KeyMap { rings: Vec::new() }
    }

    fn position(&self, public_key: &str) -> (found: Option<usize>)
        ensures
            found is Some <==> self@.contains_key(public_key@),
            found matches Some(i) ==> i < self.rings@.len() && self.rings@[i as int].public_key@
                == public_key@ && self@[public_key@] == target_list(
                self.rings@[i as int].outbound@,
            ),
    {
        proof {
            use_type_invariant(self);
            lemma_ring_map(self.rings@);
        }
        let mut i: usize = 0;
        while i < self.rings.len()
            invariant
                i <= self.rings@.len(),
                self@ == ring_map(self.rings@),
                forall|k: int|
                    0 <= k < self.rings@.len() ==> self@.contains_key(
                        (#[trigger] self.rings@[k]).public_key@,
                    ) && self@[self.rings@[k].public_key@] == target_list(
                        self.rings@[k].outbound@,
                    ),
                forall|k: int|
                    0 <= k < i ==> (#[trigger] self.rings@[k]).public_key@ != public_key@,
            decreases self.rings@.len() - i,
        {
            if same_text(self.rings[i].public_key.as_str(), public_key) {
                return Some(i);
            }
            i += 1;
        }
        None
    }

    /// The destinations of the requests that claim a public key.
    pub fn get(&self, public_key: &str) -> (targets: Option<&Vec<OutboundTarget>>)
        ensures
            targets is Some <==> self@.contains_key(public_key@),
            targets matches Some(list) ==> self@[public_key@] == target_list(list@),
    {
        match self.position(public_key) {
            Some(i) => Some(&self.rings[i].outbound),
            None => None,
        }
    }

    /// All key rings.
    pub fn rings(&self) -> (rings: &Vec<DsnKeyRing>)
        ensures
            rings@ == self.ring_list(),
            self@ == ring_map(rings@),
            distinct_keys(rings@),
    {
        proof {
            use_type_invariant(self);
        }
        &self.rings
    }

    /// The key map in which a key ring takes the place of any earlier one with its key.
    pub fn with_ring(self, ring: DsnKeyRing) -> (map: KeyMap)
        ensures
            map@ == self@.insert(ring.public_key@, target_list(ring.outbound@)),
    {
        proof {
            use_type_invariant(&self);
        }
        let found = self.position(ring.public_key.as_str());
        let ghost before = self@;
        let ghost key = ring.public_key@;
        let ghost targets = target_list(ring.outbound@);
        let mut rings = self.rings;
        let ghost old_rings = rings@;
        proof {
            lemma_ring_map(old_rings);
        }
        if let Some(i) = found {
            rings.remove(i);
        }
        let ghost kept = rings@;
        rings.push(ring);
        proof {
            assert forall|a: int, b: int| 0 <= a < b < rings@.len() implies (
            #[trigger] rings@[a]).public_key@ != (#[trigger] rings@[b]).public_key@ by {
                lemma_kept(old_rings, kept, found, key, a);
                if b < kept.len() {
                    lemma_kept(old_rings, kept, found, key, b);
                }
            }
            assert(distinct_keys(kept)) by {
                assert forall|a: int, b: int| 0 <= a < b < kept.len() implies (
                #[trigger] kept[a]).public_key@ != (#[trigger] kept[b]).public_key@ by {
                    assert(rings@[a] == kept[a] && rings@[b] == kept[b]);
                }
            }
            lemma_ring_map(kept);
            assert(rings@.drop_last() =~= kept);
            assert(ring_map(rings@) =~= before.insert(key, targets)) by {
                assert forall|k: Seq<char>| k != key implies ring_map(kept).contains_key(k)
                    == before.contains_key(k) && (before.contains_key(k) ==> ring_map(kept)[k]
                    == before[k]) by {
                    if ring_map(kept).contains_key(k) {
                        let a = choose|a: int|
                            0 <= a < kept.len() && (#[trigger] kept[a]).public_key@ == k;
                        lemma_kept(old_rings, kept, found, key, a);
                    }
                    if before.contains_key(k) {
                        let c = choose|c: int|
                            0 <= c < old_rings.len() && (#[trigger] old_rings[c]).public_key@ == k;
                        let a = match found {
                            Some(i) => if c < i { c } else { c - 1 },
                            None => c,
                        };
                        assert(kept[a] == old_rings[c]);
                    }
                }
            }
        }
        KeyMap { rings }
    }
}

/// What stays of the rings when the one under a key is taken out: rings that were there,
/// under other keys.
proof fn lemma_kept(
    rings: Seq<DsnKeyRing>,
    kept: Seq<DsnKeyRing>,
    found: Option<usize>,
    key: Seq<char>,
    a: int,
)
    requires
        distinct_keys(rings),
        0 <= a < kept.len(),
        found matches Some(i) ==> i < rings.len() && rings[i as int].public_key@ == key && kept
            == rings.remove(i as int),
        found is None ==> kept == rings && forall|c: int|
            0 <= c < rings.len() ==> (#[trigger] rings[c]).public_key@ != key,
    ensures
        kept[a].public_key@ != key,
        exists|c: int| 0 <= c < rings.len() && #[trigger] rings[c] == kept[a] && c == (match found {
            Some(i) => if a < i { a } else { a + 1 },
            None => a,
        }),
{
    let c = match found {
        Some(i) => if a < i { a } else { a + 1 },
        None => a,
    };
    assert(rings[c] == kept[a]);
    if let Some(i) = found {
        if c < i {
            assert(rings[c].public_key@ != rings[i as int].public_key@);
        } else {
            assert(rings[i as int].public_key@ != rings[c].public_key@);
        }
    }
}

/// The DSN text of an outbound entry, where it has one.
pub open spec fn entry_text(entry: OutboundEntry) -> Option<Seq<char>> {
    match entry {
        OutboundEntry::Dsn(Some(text)) => Some(text@),
        OutboundEntry::Detailed { dsn: Some(text), .. } => Some(text@),
        _ => None,
    }
}

/// The categories that an outbound entry is restricted to, where it is.
pub open spec fn entry_categories(entry: OutboundEntry) -> Option<Seq<DataCategory>> {
    match entry {
        OutboundEntry::Dsn(_) => None,
        OutboundEntry::Detailed { categories, .. } => category_list(categories),
    }
}

/// The destinations that outbound entries name, in order. Entries without a DSN name none;
/// a text that is no DSN makes the whole list invalid.
pub open spec fn targets_of(entries: Seq<OutboundEntry>) -> Option<Seq<TargetParts>>
    decreases entries.len(),
{
    if entries.len() == 0 {
        Some(Seq::empty())
    } else {
        let before = targets_of(entries.drop_last());
        match (before, entry_text(entries.last())) {
            (None, _) => None,
            (Some(targets), None) => Some(targets),
            (Some(targets), Some(text)) => match dsn_parts(text) {
                None => None,
                Some(dsn) => Some(
                    targets.push(
                        TargetParts { dsn, categories: entry_categories(entries.last()) },
                    ),
                ),
            },
        }
    }
}

/// The key map that configured key rings make. Rings without an inbound DSN are left out;
/// a text that is no DSN makes the whole configuration invalid.
pub open spec fn key_map_of(keys: Seq<KeyRing>) -> Option<Map<Seq<char>, Seq<TargetParts>>>
    decreases keys.len(),
{
    if keys.len() == 0 {
        Some(Map::empty())
    } else {
        let ring = keys.last();
        match (key_map_of(keys.drop_last()), ring.inbound) {
            (None, _) => None,
            (Some(map), None) => Some(map),
            (Some(map), Some(text)) => match (dsn_parts(text@), targets_of(ring.outbound@)) {
                (Some(inbound), Some(targets)) => Some(map.insert(inbound.public_key, targets)),
                _ => None,
            },
        }
    }
}

/// An invalid beginning of a list of outbound entries makes the list invalid.
proof fn lemma_targets_invalid(entries: Seq<OutboundEntry>, n: int)
    requires
        0 <= n <= entries.len(),
        targets_of(entries.take(n)) is None,
    ensures
        targets_of(entries) is None,
    decreases entries.len() - n,
{
    if n < entries.len() {
        assert(entries.take(n + 1).drop_last() =~= entries.take(n));
        lemma_targets_invalid(entries, n + 1);
    } else {
        assert(entries.take(n) =~= entries);
    }
}

/// An invalid beginning of a list of key rings makes the list invalid.
proof fn lemma_keys_invalid(keys: Seq<KeyRing>, n: int)
    requires
        0 <= n <= keys.len(),
        key_map_of(keys.take(n)) is None,
    ensures
        key_map_of(keys) is None,
    decreases keys.len() - n,
{
    if n < keys.len() {
        assert(keys.take(n + 1).drop_last() =~= keys.take(n));
        lemma_keys_invalid(keys, n + 1);
    } else {
        assert(keys.take(n) =~= keys);
    }
}

fn copy_categories(categories: &Vec<DataCategory>) -> (copy: Vec<DataCategory>)
    ensures
        copy@ == categories@,
{
    let mut copy: Vec<DataCategory> = Vec::new();
    let mut i: usize = 0;
    while i < categories.len()
        invariant
            i <= categories@.len(),
            copy@ == categories@.take(i as int),
        decreases categories@.len() - i,
    {
        copy.push(categories[i]);
        i += 1;
        assert(copy@ =~= categories@.take(i as int));
    }
    assert(categories@.take(i as int) =~= categories@);
    copy
}

/// Reads the destinations that outbound entries name.
pub fn make_targets(entries: &Vec<OutboundEntry>) -> (targets: Option<Vec<OutboundTarget>>)
    ensures
        targets is Some <==> targets_of(entries@) is Some,
        targets matches Some(list) ==> targets_of(entries@) == Some(target_list(list@)),
{
    let mut list: Vec<OutboundTarget> = Vec::new();
    let mut i: usize = 0;
    assert(target_list(list@) =~= Seq::empty());
    while i < entries.len()
        invariant
            i <= entries@.len(),
            targets_of(entries@.take(i as int)) == Some(target_list(list@)),
        decreases entries@.len() - i,
    {
        assert(entries@.take(i + 1).drop_last() =~= entries@.take(i as int));
        let ghost earlier = list@;
        let (text, categories) = match &entries[i] {
            OutboundEntry::Dsn(text) => (text, None),
            OutboundEntry::Detailed { dsn, categories } => (
                dsn,
                match categories {
                    Some(allowed) => Some(copy_categories(allowed)),
                    None => None,
                },
            ),
        };
        if let Some(text) = text {
            match Dsn::parse(text.as_str()) {
                Some(dsn) => {
                    list.push(OutboundTarget { dsn, categories });
                    assert(target_list(list@) =~= target_list(earlier).push(list@.last()@));
                },
                None => {
                    proof {
                        lemma_targets_invalid(entries@, i + 1);
                    }
                    return None;
                },
            }
        }
        i += 1;
    }
    assert(entries@.take(i as int) =~= entries@);
    Some(list)
}

/// Builds the key map of configured key rings.
pub fn make_key_map(keys: &Vec<KeyRing>) -> (map: Option<KeyMap>)
    ensures
        map is Some <==> key_map_of(keys@) is Some,
        map matches Some(m) ==> key_map_of(keys@) == Some(m@),
{
    let mut map = KeyMap::new();
    let mut i: usize = 0;
    while i < keys.len()
        invariant
            i <= keys@.len(),
            key_map_of(keys@.take(i as int)) == Some(map@),
        decreases keys@.len() - i,
    {
        assert(keys@.take(i + 1).drop_last() =~= keys@.take(i as int));
        if let Some(text) = &keys[i].inbound {
            match (Dsn::parse(text.as_str()), make_targets(&keys[i].outbound)) {
                (Some(inbound), Some(outbound)) => {
                    map = map.with_ring(DsnKeyRing { public_key: inbound.public_key, outbound });
                },
                _ => {
                    proof {
                        lemma_keys_invalid(keys@, i + 1);
                    }
                    return None;
                },
            }
        }
        i += 1;
    }
    assert(keys@.take(i as int) =~= keys@);
    Some(map)
}

/// What all requests share: the settings and the keys that are served.
#[derive(Debug)]
pub struct AppState {
    pub config: ConfigData,
    pub keymap: KeyMap,
}

impl AppState {
    /// The state of a mirror with the given settings, or `None` where a configured DSN is
    /// malformed.
    pub fn from_config(config: ConfigData) -> (state: Option<AppState>)
        ensures
            state is Some <==> key_map_of(config.keys@) is Some,
            state matches Some(s) ==> s.config == config && key_map_of(config.keys@) == Some(
                s.keymap@,
            ),
    {
        match make_key_map(&config.keys) {
            Some(keymap) => Some(AppState { config, keymap }),
            None => None,
        }
    }
}

/// The lines for the destinations of a key.
pub open spec fn target_lines(targets: Seq<OutboundTarget>) -> Seq<char>
    decreases targets.len(),
{
    if targets.len() == 0 {
        Seq::empty()
    } else {
        target_lines(targets.drop_last()) + "  outbound: "@ + dsn_text(targets.last().dsn@) + "\n"@
    }
}

/// The lines for key rings: each key, with its destinations below it.
pub open spec fn ring_lines(rings: Seq<DsnKeyRing>) -> Seq<char>
    decreases rings.len(),
{
    if rings.len() == 0 {
        Seq::empty()
    } else {
        ring_lines(rings.drop_last()) + "inbound: "@ + rings.last().public_key@ + "\n"@
            + target_lines(rings.last().outbound@)
    }
}

fn format_targets(targets: &Vec<OutboundTarget>) -> (text: String)
    ensures
        text@ == target_lines(targets@),
{
    let mut text = String::new();
    let mut i: usize = 0;
    while i < targets.len()
        invariant
            i <= targets@.len(),
            text@ == target_lines(targets@.take(i as int)),
        decreases targets@.len() - i,
    {
        text.append("  outbound: ");
        text.append(targets[i].dsn.to_text().as_str());
        text.append("\n");
        i += 1;
        assert(targets@.take(i as int).drop_last() =~= targets@.take(i - 1));
    }
    assert(targets@.take(i as int) =~= targets@);
    text
}

/// Lists the configured keys with their destinations, one line each.
pub fn format_key_map(keymap: &KeyMap) -> (text: String)
    ensures
        text@ == ring_lines(keymap.ring_list()),
{
    let rings = keymap.rings();
    let mut text = String::new();
    let mut i: usize = 0;
    while i < rings.len()
        invariant
            i <= rings@.len(),
            text@ == ring_lines(rings@.take(i as int)),
        decreases rings@.len() - i,
    {
        text.append("inbound: ");
        text.append(rings[i].public_key.as_str());
        text.append("\n");
        text.append(format_targets(&rings[i].outbound).as_str());
        i += 1;
        assert(rings@.take(i as int).drop_last() =~= rings@.take(i - 1));
    }
    assert(rings@.take(i as int) =~= rings@);
    text
}

/// Whether a key ring is the last one whose inbound DSN has its public key.
pub open spec fn is_last_with_key(keys: Seq<KeyRing>, i: int, public_key: Seq<char>) -> bool {
    &&& has_key(keys[i], public_key)
    &&& forall|j: int| i < j < keys.len() ==> !has_key(#[trigger] keys[j], public_key)
}

/// Whether the inbound DSN of a key ring has a public key.
pub open spec fn has_key(ring: KeyRing, public_key: Seq<char>) -> bool {
    ring.inbound matches Some(text) && (dsn_parts(text@) matches Some(dsn) && dsn.public_key
        == public_key)
}

/// What an inbound DSN takes in goes to the outbound DSNs of its own key ring, and nothing
/// but the keys of inbound DSNs is served. Of key rings with the same key the last one
/// counts.
pub proof fn law_rings_served(keys: Seq<KeyRing>)
    requires
        key_map_of(keys) is Some,
    ensures
        forall|i: int, public_key: Seq<char>|
            0 <= i < keys.len() && #[trigger] is_last_with_key(keys, i, public_key) ==> {
                &&& key_map_of(keys)->0.contains_key(public_key)
                &&& targets_of(keys[i].outbound@) == Some(key_map_of(keys)->0[public_key])
            },
        forall|public_key: Seq<char>| #[trigger]
            key_map_of(keys)->0.contains_key(public_key) ==> exists|i: int|
                0 <= i < keys.len() && has_key(#[trigger] keys[i], public_key),
    decreases keys.len(),
{
    if keys.len() > 0 {
        let before = keys.drop_last();
        law_rings_served(before);
        let map = key_map_of(keys)->0;
        let earlier = key_map_of(before)->0;
        assert forall|i: int, public_key: Seq<char>|
            0 <= i < keys.len() && #[trigger] is_last_with_key(keys, i, public_key) implies {
            &&& map.contains_key(public_key)
            &&& targets_of(keys[i].outbound@) == Some(map[public_key])
        } by {
            if i < before.len() {
                assert(before[i] == keys[i]);
                assert(!has_key(keys[keys.len() - 1], public_key));
                assert forall|j: int| i < j < before.len() implies !has_key(
                    #[trigger] before[j],
                    public_key,
                ) by {
                    assert(!has_key(keys[j], public_key));
                }
                assert(is_last_with_key(before, i, public_key));
            }
        }
        assert forall|public_key: Seq<char>| #[trigger]
            map.contains_key(public_key) implies exists|i: int|
            0 <= i < keys.len() && has_key(#[trigger] keys[i], public_key) by {
            if earlier.contains_key(public_key) {
                let i = choose|i: int| 0 <= i < before.len() && has_key(
                    #[trigger] before[i],
                    public_key,
                );
                assert(has_key(keys[i], public_key));
            } else {
                assert(has_key(keys[keys.len() - 1], public_key));
            }
        }
    }
}

/// One more outbound entry adds one more destination behind the others, with the DSN that it
/// gives and with exactly the categories that it lists, or with no restriction where it
/// lists none. An entry without a DSN adds nothing. A DSN that cannot be read spoils all.
pub proof fn law_entry_added(entries: Seq<OutboundEntry>, entry: OutboundEntry)
    ensures
        targets_of(Seq::empty()) == Some(Seq::<TargetParts>::empty()),
        ({
            let before = targets_of(entries);
            let after = targets_of(entries.push(entry));
            &&& before is None ==> after is None
            &&& before matches Some(targets) ==> match entry {
                OutboundEntry::Dsn(None) => after == before,
                OutboundEntry::Detailed { dsn: None, .. } => after == before,
                OutboundEntry::Dsn(Some(text)) => match dsn_parts(text@) {
                    Some(dsn) => after == Some(targets.push(TargetParts { dsn, categories: None })),
                    None => after is None,
                },
                OutboundEntry::Detailed { dsn: Some(text), categories: None } => match dsn_parts(
                    text@,
                ) {
                    Some(dsn) => after == Some(targets.push(TargetParts { dsn, categories: None })),
                    None => after is None,
                },
                OutboundEntry::Detailed {
                    dsn: Some(text),
                    categories: Some(list),
                } => match dsn_parts(text@) {
                    Some(dsn) => after == Some(
                        targets.push(TargetParts { dsn, categories: Some(list@) }),
                    ),
                    None => after is None,
                },
            }
        }),
{
    assert(entries.push(entry).drop_last() =~= entries);
}

/// One more key ring serves the key of its inbound DSN with the destinations that its
/// entries give, in place of any earlier ring with that key, and leaves every other key as
/// it was. A ring without an inbound DSN adds nothing, and a DSN that cannot be read spoils
/// all.
pub proof fn law_ring_added(keys: Seq<KeyRing>, ring: KeyRing, other: Seq<char>)
    ensures
        key_map_of(Seq::empty()) == Some(Map::<Seq<char>, Seq<TargetParts>>::empty()),
        ({
            let before = key_map_of(keys);
            let after = key_map_of(keys.push(ring));
            &&& before is None ==> after is None
            &&& before is Some && ring.inbound is None ==> after == before
            &&& before is Some && ring.inbound is Some ==> match dsn_parts(ring.inbound->0@) {
                None => after is None,
                Some(dsn) => match targets_of(ring.outbound@) {
                    None => after is None,
                    Some(targets) => {
                        &&& after is Some
                        &&& after->0.contains_key(dsn.public_key)
                        &&& after->0[dsn.public_key] == targets
                        &&& other != dsn.public_key ==> after->0.contains_key(other)
                            == before->0.contains_key(other)
                        &&& other != dsn.public_key && before->0.contains_key(other)
                            ==> after->0[other] == before->0[other]
                    },
                },
            }
        }),
{
    assert(keys.push(ring).drop_last() =~= keys);
}

/// Where every outbound entry gives a DSN, each of them is a destination, in order, with
/// that DSN and with exactly the categories that it lists.
pub proof fn law_entries_are_destinations(entries: Seq<OutboundEntry>)
    requires
        targets_of(entries) is Some,
        forall|i: int|
            0 <= i < entries.len() ==> match #[trigger] entries[i] {
                OutboundEntry::Dsn(dsn) => dsn is Some,
                OutboundEntry::Detailed { dsn, .. } => dsn is Some,
            },
    ensures
        targets_of(entries)->0.len() == entries.len(),
        forall|i: int|
            0 <= i < entries.len() ==> {
                let target = #[trigger] targets_of(entries)->0[i];
                match entries[i] {
                    OutboundEntry::Dsn(dsn) => dsn_parts(dsn->0@) == Some(target.dsn)
                        && target.categories is None,
                    OutboundEntry::Detailed { dsn, categories: None } => dsn_parts(dsn->0@) == Some(
                        target.dsn,
                    ) && target.categories is None,
                    OutboundEntry::Detailed { dsn, categories: Some(list) } => dsn_parts(dsn->0@)
                        == Some(target.dsn) && target.categories == Some(list@),
                }
            },
    decreases entries.len(),
{
    if entries.len() > 0 {
        let before = entries.drop_last();
        assert forall|i: int| 0 <= i < before.len() implies match #[trigger] before[i] {
            OutboundEntry::Dsn(dsn) => dsn is Some,
            OutboundEntry::Detailed { dsn, .. } => dsn is Some,
        } by {
            assert(before[i] == entries[i]);
        }
        let last = entries[entries.len() - 1];
        assert(before.push(last) =~= entries);
        law_entry_added(before, last);
        law_entries_are_destinations(before);
        assert forall|i: int| 0 <= i < entries.len() implies {
            let target = #[trigger] targets_of(entries)->0[i];
            match entries[i] {
                OutboundEntry::Dsn(dsn) => dsn_parts(dsn->0@) == Some(target.dsn)
                    && target.categories is None,
                OutboundEntry::Detailed { dsn, categories: None } => dsn_parts(dsn->0@) == Some(
                    target.dsn,
                ) && target.categories is None,
                OutboundEntry::Detailed { dsn, categories: Some(list) } => dsn_parts(dsn->0@)
                    == Some(target.dsn) && target.categories == Some(list@),
            }
        } by {
            if i < before.len() {
                assert(targets_of(entries)->0[i] == targets_of(before)->0[i]);
                assert(before[i] == entries[i]);
            }
        }
    }
}

/// A list of destinations is shown in full and in order, each with its DSN and with all the
/// categories that it is restricted to.
pub proof fn law_targets_shown(targets: Seq<OutboundTarget>, i: int)
    ensures
        target_list(targets).len() == targets.len(),
        0 <= i < targets.len() ==> {
            &&& target_list(targets)[i].dsn == targets[i].dsn@
            &&& targets[i].categories matches Some(list) ==> target_list(targets)[i].categories
                == Some(list@)
            &&& targets[i].categories is None ==> target_list(targets)[i].categories is None
        },
{
}

/// One more key ring adds its key, and below it one line for each of its destinations, behind
/// the lines of the others.
pub proof fn law_rings_listed(
    rings: Seq<DsnKeyRing>,
    ring: DsnKeyRing,
    targets: Seq<OutboundTarget>,
    target: OutboundTarget,
)
    ensures
        ring_lines(Seq::empty()) == Seq::<char>::empty(),
        ring_lines(rings.push(ring)) == ring_lines(rings) + "inbound: "@ + ring.public_key@ + "\n"@
            + target_lines(ring.outbound@),
        target_lines(Seq::empty()) == Seq::<char>::empty(),
        target_lines(targets.push(target)) == target_lines(targets) + "  outbound: "@ + dsn_text(
            target.dsn@,
        ) + "\n"@,
{
    assert(rings.push(ring).drop_last() =~= rings);
    assert(targets.push(target).drop_last() =~= targets);
}

} // verus!
