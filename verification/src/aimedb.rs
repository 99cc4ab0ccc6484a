//! The AiMeDB access code of a card, looked up on a web service and kept in a
//! cache file so that each card is asked for once. The requests and the file
//! belong to the caller; this module decides what to ask, what a reply
//! means, and what the cache holds.

use vstd::prelude::*;
use crate::card::{access_code_008, idm_value, get_008_accesscode};

verus! {

/// What serde_json reads from a JSON text as an object whose values are all
/// strings: the key-value pairs, or `None` where the text is not such an
/// object.
pub uninterp spec fn json_string_map(text: Seq<char>) -> Option<Map<Seq<char>, Seq<char>>>;

/// The pretty-printed JSON object that serde_json writes for a map of
/// strings to strings.
pub uninterp spec fn json_pretty_string_map(entries: Map<Seq<char>, Seq<char>>) -> Seq<char>;

/// The cache that a cache file's text holds: its JSON object of strings,
/// or nothing where the text is not one.
pub open spec fn cache_of_json(text: Seq<char>) -> Map<Seq<char>, Seq<char>> {
    match json_string_map(text) {
        Some(m) => m,
        None => Map::empty(),
    }
}

/// The map that a list of key-value pairs denotes.
pub open spec fn pairs_map(pairs: Seq<(String, String)>) -> Map<Seq<char>, Seq<char>>
    decreases pairs.len(),
{
    if pairs.len() == 0 {
        Map::empty()
    } else {
        pairs_map(pairs.drop_last()).insert(pairs.last().0@, pairs.last().1@)
    }
}

/// No key occurs twice in a list of pairs.
pub open spec fn keys_distinct(pairs: Seq<(String, String)>) -> bool {
    forall|i: int, j: int|
        0 <= i < j < pairs.len() ==> #[trigger] pairs[i].0@ != #[trigger] pairs[j].0@
}

/// Reads a JSON object of strings.
///
/// Trusted: calls `serde_json::from_str` for a `BTreeMap<String, String>`
/// and lists the map's entries. The contract claims that the call succeeds
/// exactly where the named result is a map, and that the listed entries,
/// whose keys a map holds once each, are that map.
#[verifier::external_body]
fn read_json_string_map(text: &str) -> (r: Option<Vec<(String, String)>>)
    ensures
        r is Some <==> json_string_map(text@) is Some,
        r matches Some(v) ==> keys_distinct(v@) && pairs_map(v@) == json_string_map(text@)->0,
{
    match serde_json::from_str::<std::collections::BTreeMap<String, String>>(text) {
        Ok(m) => Some(m.into_iter().collect()),
        Err(_) => None,
    }
}

/// Writes a map of strings as a pretty-printed JSON object.
///
/// Trusted: calls `serde_json::to_string_pretty` on a `BTreeMap<String,
/// String>` holding the given pairs. The contract claims that the call
/// succeeds (serde_json fails only for non-string map keys, a `Serialize`
/// impl that fails, or a writer that fails; a map of strings written to a
/// `Vec` has none of these), and that its text is the named result for the
/// map that the pairs denote. It also claims that `serde_json::from_str`
/// reads that text back as the same map: serde_json escapes every `"`,
/// `\` and control character of a string it writes and reads the escapes
/// back, and a `BTreeMap` writes each key once.
#[verifier::external_body]
fn write_json_string_map(pairs: &Vec<(String, String)>) -> (r: Option<String>)
    requires
        keys_distinct(pairs@),
    ensures
        r is Some,
        r matches Some(t) ==> t@ == json_pretty_string_map(pairs_map(pairs@)),
        r matches Some(t) ==> json_string_map(t@) == Some(pairs_map(pairs@)),
{
    serde_json::to_string_pretty(
        &pairs.iter().cloned().collect::<std::collections::BTreeMap<String, String>>(),
    ).ok()
}

proof fn lemma_pairs_map_dom(pairs: Seq<(String, String)>, k: Seq<char>)
    ensures
        pairs_map(pairs).contains_key(k) <==> exists|i: int| 0 <= i < pairs.len() && #[trigger] pairs[i].0@ == k,
    decreases pairs.len(),
{
    if pairs.len() > 0 {
        lemma_pairs_map_dom(pairs.drop_last(), k);
        if pairs_map(pairs.drop_last()).contains_key(k) {
            let i = choose|i: int| 0 <= i < pairs.drop_last().len() && #[trigger] pairs.drop_last()[i].0@ == k;
            assert(pairs[i].0@ == k);
        }
        if exists|i: int| 0 <= i < pairs.len() && #[trigger] pairs[i].0@ == k {
            let i = choose|i: int| 0 <= i < pairs.len() && #[trigger] pairs[i].0@ == k;
            if i < pairs.len() - 1 {
                assert(pairs.drop_last()[i].0@ == k);
            }
        }
    }
}

proof fn lemma_pairs_map_index(pairs: Seq<(String, String)>, i: int)
    requires
        0 <= i < pairs.len(),
        keys_distinct(pairs),
    ensures
        pairs_map(pairs).contains_key(pairs[i].0@),
        pairs_map(pairs)[pairs[i].0@] == pairs[i].1@,
    decreases pairs.len(),
{
    if i < pairs.len() - 1 {
        assert(pairs.drop_last()[i] == pairs[i]);
        assert(keys_distinct(pairs.drop_last()));
        lemma_pairs_map_index(pairs.drop_last(), i);
        assert(pairs[i].0@ != pairs[pairs.len() - 1].0@);
    }
}

proof fn lemma_pairs_map_update(pairs: Seq<(String, String)>, j: int, p: (String, String))
    requires
        0 <= j < pairs.len(),
        keys_distinct(pairs),
        pairs[j].0@ == p.0@,
    ensures
        keys_distinct(pairs.update(j, p)),
        pairs_map(pairs.update(j, p)) == pairs_map(pairs).insert(p.0@, p.1@),
{
    let q = pairs.update(j, p);
    assert(keys_distinct(q)) by {
        assert forall|a: int, b: int| 0 <= a < b < q.len() implies #[trigger] q[a].0@ != #[trigger] q[b].0@ by {
            assert(pairs[a].0@ != pairs[b].0@);
        }
    }
    let lhs = pairs_map(q);
    let rhs = pairs_map(pairs).insert(p.0@, p.1@);
    assert forall|k: Seq<char>| lhs.contains_key(k) <==> rhs.contains_key(k) by {
        lemma_pairs_map_dom(q, k);
        lemma_pairs_map_dom(pairs, k);
        if exists|i: int| 0 <= i < pairs.len() && #[trigger] pairs[i].0@ == k {
            let i = choose|i: int| 0 <= i < pairs.len() && #[trigger] pairs[i].0@ == k;
            assert(q[i].0@ == k);
        }
        if exists|i: int| 0 <= i < q.len() && #[trigger] q[i].0@ == k {
            let i = choose|i: int| 0 <= i < q.len() && #[trigger] q[i].0@ == k;
            assert(pairs[i].0@ == k);
        }
    }
    assert forall|k: Seq<char>| lhs.contains_key(k) implies lhs[k] == rhs[k] by {
        lemma_pairs_map_dom(q, k);
        let i = choose|i: int| 0 <= i < q.len() && #[trigger] q[i].0@ == k;
        lemma_pairs_map_index(q, i);
        if i != j {
            lemma_pairs_map_index(pairs, i);
        }
    }
    assert(lhs =~= rhs);
}

/// The cache of access codes by card IDm.
pub struct AccessCodeCache {
    entries: Vec<(String, String)>,
}

impl View for AccessCodeCache {
    type V = Map<Seq<char>, Seq<char>>;

    closed spec fn view(&self) -> Map<Seq<char>, Seq<char>> {
        pairs_map(self.entries@)
    }
}

impl AccessCodeCache {
    /// No IDm occurs twice.
    #[verifier::type_invariant]
    spec fn wf(&self) -> bool {
        keys_distinct(self.entries@)
    }

    /// The empty cache.
    pub fn new() -> (c: Self)
        ensures
            c@ == Map::<Seq<char>, Seq<char>>::empty(),
    {
        AccessCodeCache { entries: Vec::new() }
    }

    /// The cache that a cache file's text holds: its JSON object of strings,
    /// or nothing where the text is not one (a missing or damaged file).
    pub fn from_json(text: &str) -> (c: Self)
        ensures
            c@ == cache_of_json(text@),
    {
        match read_json_string_map(text) {
            Some(entries) => AccessCodeCache { entries },
            None => AccessCodeCache::new(),
        }
    }

    /// The access code cached for an IDm.
    pub fn get(&self, idm: &str) -> (r: Option<String>)
        ensures
            r is Some <==> self@.contains_key(idm@),
            r matches Some(code) ==> code@ == self@[idm@],
    {
        proof {
            use_type_invariant(self);
        }
        let mut i: usize = 0;
        while i < self.entries.len()
            invariant
                i <= self.entries@.len(),
                keys_distinct(self.entries@),
                forall|j: int| 0 <= j < i ==> #[trigger] self.entries@[j].0@ != idm@,
            decreases self.entries.len() - i,
        {
            if crate::text::str_eq(self.entries[i].0.as_str(), idm) {
                proof {
                    lemma_pairs_map_index(self.entries@, i as int);
                }
                return Some(self.entries[i].1.clone());
            }
            i = i + 1;
        }
        proof {
            lemma_pairs_map_dom(self.entries@, idm@);
        }
        None
    }

    /// Records the access code of an IDm, in place of any earlier one.
    pub fn insert(&mut self, idm: &str, code: &str)
        ensures
            final(self)@ == old(self)@.insert(idm@, code@),
    {
        proof {
            use_type_invariant(&*self);
        }
        let mut entries: Vec<(String, String)> = Vec::new();
        std::mem::swap(&mut entries, &mut self.entries);
        self.entries = AccessCodeCache::with_entry(entries, idm, code);
    }

    fn with_entry(current: Vec<(String, String)>, idm: &str, code: &str) -> (r: Vec<(String, String)>)
        requires
            keys_distinct(current@),
        ensures
            keys_distinct(r@),
            pairs_map(r@) == pairs_map(current@).insert(idm@, code@),
    {
        let mut entries = current;
        let ghost original = entries@;
        let mut i: usize = 0;
        while i < entries.len()
            invariant
                i <= entries@.len(),
                entries@ == original,
                original == current@,
                keys_distinct(entries@),
                forall|j: int| 0 <= j < i ==> #[trigger] entries@[j].0@ != idm@,
            decreases entries.len() - i,
        {
            if crate::text::str_eq(entries[i].0.as_str(), idm) {
                let entry: (String, String) = (idm.to_owned(), code.to_owned());
                proof {
                    lemma_pairs_map_update(entries@, i as int, entry);
                }
                entries.set(i, entry);
                return entries;
            }
            i = i + 1;
        }
        let ghost before = entries@;
        let entry: (String, String) = (idm.to_owned(), code.to_owned());
        entries.push(entry);
        assert(entries@.drop_last() =~= before);
        assert(keys_distinct(entries@)) by {
            assert forall|a: int, b: int| 0 <= a < b < entries@.len() implies
                #[trigger] entries@[a].0@ != #[trigger] entries@[b].0@ by {
                if b < before.len() {
                    assert(before[a].0@ != before[b].0@);
                }
            }
        }
        entries
    }

    /// The cache as the text of a cache file: the pretty-printed JSON
    /// object of its entries. What is cached lasts: `from_json` reads that
    /// text back as this same cache.
    pub fn to_json(&self) -> (r: Option<String>)
        ensures
            r is Some,
            r matches Some(t) ==> t@ == json_pretty_string_map(self@),
            r matches Some(t) ==> json_string_map(t@) == Some(self@),
            r matches Some(t) ==> cache_of_json(t@) == self@,
    {
        proof {
            use_type_invariant(self);
        }
        write_json_string_map(&self.entries)
    }
}

/// After an access code is recorded for an IDm, the cache gives that code
/// for it, and gives for every other IDm what it gave before.
pub proof fn lemma_cache_read_after_write(
    before: Map<Seq<char>, Seq<char>>,
    idm: Seq<char>,
    code: Seq<char>,
    other: Seq<char>,
)
    ensures
        before.insert(idm, code).contains_key(idm),
        before.insert(idm, code)[idm] == code,
        other != idm ==> (before.insert(idm, code).contains_key(other) <==> before.contains_key(other)),
        other != idm && before.contains_key(other) ==> before.insert(idm, code)[other] == before[other],
{
}

/// The number of bytes that UTF-8 takes for a character.
pub open spec fn utf8_width(c: char) -> nat {
    if (c as int) < 0x80 {
        1
    } else if (c as int) < 0x800 {
        2
    } else if (c as int) < 0x1_0000 {
        3
    } else {
        4
    }
}

/// The characters whose UTF-8 bytes make up bytes `from` to `to` (not
/// included) of the UTF-8 encoding of `s`: what `&s[from..to]` holds, or
/// `None` where that slice panics because an end is inside a character or
/// past the end of `s`.
pub open spec fn chars_in_bytes(s: Seq<char>, from: nat, to: nat) -> Option<Seq<char>>
    recommends
        from <= to,
    decreases s.len(),
{
    if to == 0 {
        Some(seq![])
    } else if s.len() == 0 {
        None
    } else {
        let w = utf8_width(s[0]);
        if from == 0 {
            if to < w {
                None
            } else {
                match chars_in_bytes(s.drop_first(), 0, (to - w) as nat) {
                    Some(rest) => Some(seq![s[0]] + rest),
                    None => None,
                }
            }
        } else if from < w {
            None
        } else {
            chars_in_bytes(s.drop_first(), (from - w) as nat, (to - w) as nat)
        }
    }
}

spec fn prefixed(front: Seq<char>, rest: Option<Seq<char>>) -> Option<Seq<char>> {
    match rest {
        Some(r) => Some(front + r),
        None => None,
    }
}

/// Bytes 1 to 21 of a reply body, where they are whole characters: the
/// twenty characters of an access code between the quotes of a JSON string.
pub fn quoted_code_of_body(body: &str) -> (r: Option<String>)
    ensures
        match chars_in_bytes(body@, 1, 21) {
            Some(cs) => r matches Some(t) && t@ == cs,
            None => r is None,
        },
{
    let n: usize = body.unicode_len();
    let mut i: usize = 0;
    let mut from: usize = 1;
    let mut to: usize = 21;
    let mut code = String::new();
    assert(body@.skip(0) =~= body@);
    assert(code@ + Seq::<char>::empty() =~= code@);
    while to > 0
        invariant
            n == body@.len(),
            i <= n,
            from <= to <= 21,
            chars_in_bytes(body@, 1, 21) == prefixed(code@, chars_in_bytes(body@.skip(i as int), from as nat, to as nat)),
        decreases n - i,
    {
        if i == n {
            return None;
        }
        let c = body.get_char(i);
        let u: u32 = c as u32;
        let w: usize = if u < 0x80 {
            1
        } else if u < 0x800 {
            2
        } else if u < 0x1_0000 {
            3
        } else {
            4
        };
        let ghost rest = body@.skip(i as int);
        assert(rest[0] == c);
        assert(w == utf8_width(c));
        assert(rest.drop_first() =~= body@.skip(i + 1));
        if from == 0 {
            if to < w {
                return None;
            }
            let ghost before = code@;
            crate::text::push_char(&mut code, c);
            to = to - w;
            proof {
                let tail = chars_in_bytes(body@.skip(i + 1), 0, to as nat);
                if tail is Some {
                    assert(before + (seq![c] + tail->0) =~= code@ + tail->0);
                }
            }
        } else {
            if from < w {
                return None;
            }
            from = from - w;
            to = to - w;
        }
        i = i + 1;
    }
    assert(code@ + Seq::<char>::empty() =~= code@);
    Some(code)
}

/// The request that asks the card service for the access code of an IDm.
pub fn aimedb_request_url(idm: &str) -> (url: String)
    ensures
        url@ == "https://card.bsnk.me/normalise/sega:"@ + idm@,
{
    let mut url = String::from_str("https://card.bsnk.me/normalise/sega:");
    url.append(idm);
    url
}

/// The first step of looking an IDm's access code up: the cached code, or
/// the request to send.
pub enum AimedbStep {
    /// The code is cached; no request is sent.
    Cached(String),
    /// The code is not cached; ask the card service at this address.
    Ask(String),
}

/// The first step of looking an IDm's access code up: a cached code is
/// used as it is, so an IDm whose code was recorded is never asked for
/// again; only an IDm missing from the cache is asked for.
pub fn aimedb_lookup(cache: &AccessCodeCache, idm: &str) -> (step: AimedbStep)
    ensures
        if cache@.contains_key(idm@) {
            step matches AimedbStep::Cached(c) && c@ == cache@[idm@]
        } else {
            step matches AimedbStep::Ask(url) && url@ == "https://card.bsnk.me/normalise/sega:"@ + idm@
        },
{
    match cache.get(idm) {
        Some(code) => AimedbStep::Cached(code),
        None => AimedbStep::Ask(aimedb_request_url(idm)),
    }
}

/// What came of asking the card service.
pub enum AimedbReply {
    /// The request could not be sent.
    RequestFailed,
    /// The service answered with a status other than success.
    Unsuccessful,
    /// The body of a successful answer could not be read as text.
    BodyUnreadable,
    /// The body of a successful answer.
    Body(String),
}

/// The access code that a reply gives, and whether it goes into the cache.
pub enum AimedbOutcome {
    /// A code to use but not to cache: the service was not reached.
    Uncached(String),
    /// A code to use and to cache.
    Cached(String),
    /// The body is too short, or its bytes 1 to 21 are not whole
    /// characters: taking the code out of it fails.
    MalformedBody,
}

/// The access code for an IDm given the card service's reply. A reply
/// that holds no code falls back to the 0008 code; so does a request that
/// was never answered, but that code is not cached.
pub fn aimedb_outcome(idm: &str, reply: &AimedbReply) -> (o: AimedbOutcome)
    ensures
        match reply {
            AimedbReply::RequestFailed => o matches AimedbOutcome::Uncached(c)
                && c@ == access_code_008(idm_value(idm@) as int),
            AimedbReply::Unsuccessful | AimedbReply::BodyUnreadable => o matches AimedbOutcome::Cached(c)
                && c@ == access_code_008(idm_value(idm@) as int),
            AimedbReply::Body(b) => match chars_in_bytes(b@, 1, 21) {
                Some(cs) => o matches AimedbOutcome::Cached(c) && c@ == cs,
                None => o is MalformedBody,
            },
        },
{
    match reply {
        AimedbReply::RequestFailed => AimedbOutcome::Uncached(get_008_accesscode(idm)),
        AimedbReply::Unsuccessful => AimedbOutcome::Cached(get_008_accesscode(idm)),
        AimedbReply::BodyUnreadable => AimedbOutcome::Cached(get_008_accesscode(idm)),
        AimedbReply::Body(b) => match quoted_code_of_body(b.as_str()) {
            Some(c) => AimedbOutcome::Cached(c),
            None => AimedbOutcome::MalformedBody,
        },
    }
}

} // verus!
